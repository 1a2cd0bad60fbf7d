//! The scene raster cache's decisions: when the retained drawlist may be
//! reused, when a frame must re-raster, and how the cache commits after a
//! successful raster.
//!
//! The cache retains one drawlist (named here by its raster identity), the
//! paint environment it was rastered under, and one source-validity key. A
//! host performs the work the decisions name — resolving, building,
//! preflighting, rastering, blitting — and commits only after all of it
//! succeeded, so a failing frame leaves the cache unchanged.

use vstd::prelude::*;
use crate::ident::NodeKey;
use crate::program::SampleError;
use crate::properties::PropertyError;

verus! {

/// How rotation participates in layout.
#[derive(Debug, Clone, Copy, PartialEq, Eq, Hash, Structural)]
pub enum RotationInFlow {
    VisualOnly,
    AffectsLayout,
}

/// Resolve options compared exactly: the viewport's bit patterns and the
/// rotation semantics.
#[derive(Debug, Clone, Copy, PartialEq, Eq, Hash, Structural)]
pub struct ResolveOptionsKey {
    pub viewport_width_bits: u32,
    pub viewport_height_bits: u32,
    pub rotation_in_flow: RotationInFlow,
}

/// One coherent source-validity domain: resolve options, the document
/// incarnation's root key, and the effective values (by identity token).
#[derive(Debug, Clone, Copy, PartialEq, Eq, Hash, Structural)]
pub struct SourceCacheKeys {
    pub options: ResolveOptionsKey,
    pub scene: NodeKey,
    pub values: u64,
}

/// What a source adapter asks for: its keys and the host's current paint
/// environment.
#[derive(Debug, Clone, Copy, PartialEq, Eq, Hash, Structural)]
pub struct SourceCacheRequest {
    pub keys: SourceCacheKeys,
    pub environment: u64,
}

#[derive(Debug, Clone, Copy, PartialEq, Eq, Hash, Structural)]
pub enum SourceDrawListDecision {
    Retain,
    Rebuild,
}

/// How the next drawlist is supplied. Lists are named by their raster
/// identity: equal tokens replay to identical pixels.
#[derive(Debug, Clone, Copy, PartialEq, Eq, Hash, Structural)]
pub enum DrawListUpdate {
    Retained,
    /// A freshly built, already preflighted list.
    ReplacePreflighted { list: u64, environment: u64 },
    /// An independently assembled list, reused when raster-equal to the cached
    /// one under the same environment and preflighted only if it replaces it.
    CompareUnchecked { list: u64, environment: u64 },
}

/// What happens to the source-validity key when a raster commits.
#[derive(Debug, Clone, Copy, PartialEq, Eq, Hash, Structural)]
pub enum SourceKeyCommit {
    Preserve,
    Replace(SourceCacheKeys),
    ClearIfDrawListChanged,
}

#[derive(Debug, Clone, PartialEq, Eq)]
pub enum FrameExecutionError {
    EnvironmentMismatch { expected: u64, actual: u64 },
    Preflight { reason: String },
}

#[derive(Debug, Clone, PartialEq, Eq)]
pub struct FrameBuildError {
    pub reason: String,
}

/// Failure before a cached frame reaches the destination canvas.
#[derive(Debug, Clone, PartialEq, Eq)]
pub enum SceneCacheError {
    Property(PropertyError),
    FrameBuild(FrameBuildError),
    FrameExecution(FrameExecutionError),
}

impl From<PropertyError> for SceneCacheError {
    fn from(error: PropertyError) -> (converted: Self) {
        SceneCacheError::Property(error)
    }
}

impl vstd::std_specs::convert::FromSpecImpl<PropertyError> for SceneCacheError {
    open spec fn obeys_from_spec() -> bool {
        true
    }

    open spec fn from_spec(v: PropertyError) -> Self {
        SceneCacheError::Property(v)
    }
}

impl From<FrameBuildError> for SceneCacheError {
    fn from(error: FrameBuildError) -> (converted: Self) {
        SceneCacheError::FrameBuild(error)
    }
}

impl vstd::std_specs::convert::FromSpecImpl<FrameBuildError> for SceneCacheError {
    open spec fn obeys_from_spec() -> bool {
        true
    }

    open spec fn from_spec(v: FrameBuildError) -> Self {
        SceneCacheError::FrameBuild(v)
    }
}

impl From<FrameExecutionError> for SceneCacheError {
    fn from(error: FrameExecutionError) -> (converted: Self) {
        SceneCacheError::FrameExecution(error)
    }
}

impl vstd::std_specs::convert::FromSpecImpl<FrameExecutionError> for SceneCacheError {
    open spec fn obeys_from_spec() -> bool {
        true
    }

    open spec fn from_spec(v: FrameExecutionError) -> Self {
        SceneCacheError::FrameExecution(v)
    }
}

/// Failure at the explicit base-or-sample cache seam: sampling completes
/// before cache comparison or destination drawing.
#[derive(Debug, Clone, PartialEq, Eq)]
pub enum SceneCacheRequestError {
    Sample(SampleError),
    Cache(SceneCacheError),
}

impl From<SampleError> for SceneCacheRequestError {
    fn from(error: SampleError) -> (converted: Self) {
        SceneCacheRequestError::Sample(error)
    }
}

impl vstd::std_specs::convert::FromSpecImpl<SampleError> for SceneCacheRequestError {
    open spec fn obeys_from_spec() -> bool {
        true
    }

    open spec fn from_spec(v: SampleError) -> Self {
        SceneCacheRequestError::Sample(v)
    }
}

impl From<SceneCacheError> for SceneCacheRequestError {
    fn from(error: SceneCacheError) -> (converted: Self) {
        SceneCacheRequestError::Cache(error)
    }
}

impl vstd::std_specs::convert::FromSpecImpl<SceneCacheError> for SceneCacheRequestError {
    open spec fn obeys_from_spec() -> bool {
        true
    }

    open spec fn from_spec(v: SceneCacheError) -> Self {
        SceneCacheRequestError::Cache(v)
    }
}

/// The work one composite performs.
#[derive(Debug, Clone, Copy, PartialEq, Eq, Hash, Structural)]
pub struct CompositePlan {
    /// The list to replay: the replacement or the retained one.
    pub list: u64,
    pub environment: u64,
    pub drawlist_changed: bool,
    pub needs_gradient_preflight: bool,
    /// Replay offscreen before the blit.
    pub reraster: bool,
}

/// The retained state of the scene cache.
#[derive(Debug, Clone, Copy, PartialEq, Eq, Hash, Structural)]
pub struct SceneCacheState {
    pub has_image: bool,
    pub list: Option<u64>,
    pub environment_key: Option<u64>,
    pub source_key: Option<SourceCacheKeys>,
}

impl SceneCacheState {
    /// A cold cache: no image, no list, no environment, no source key.
    pub fn new() -> (state: Self)
        ensures
            state == (SceneCacheState { has_image: false, list: None, environment_key: None, source_key: None }),
    {
        SceneCacheState { has_image: false, list: None, environment_key: None, source_key: None }
    }

    /// The retained list can serve `request`.
    pub open spec fn spec_decision(self, request: SourceCacheRequest, doc_dirty: bool) -> SourceDrawListDecision {
        if doc_dirty || self.list is None || self.environment_key != Some(request.environment)
            || self.source_key != Some(request.keys) {
            SourceDrawListDecision::Rebuild
        } else {
            SourceDrawListDecision::Retain
        }
    }

    /// Rebuild when the host dirtied the document, nothing is retained, the
    /// paint environment changed, or the source keys differ.
    pub fn source_drawlist_decision(&self, request: &SourceCacheRequest, doc_dirty: bool) -> (decision: SourceDrawListDecision)
        ensures
            decision == self.spec_decision(*request, doc_dirty),
    {
        let same_source = match self.source_key {
            Some(cached) => cached == request.keys,
            None => false,
        };
        let same_environment = match self.environment_key {
            Some(cached) => cached == request.environment,
            None => false,
        };
        if doc_dirty || self.list.is_none() || !same_environment || !same_source {
            SourceDrawListDecision::Rebuild
        } else {
            SourceDrawListDecision::Retain
        }
    }

    /// A retained update needs a retained list and environment.
    pub open spec fn can_composite(self, update: DrawListUpdate) -> bool {
        update is Retained ==> self.list is Some && self.environment_key is Some
    }

    /// The replacement an update makes, if any.
    pub open spec fn replacement(self, update: DrawListUpdate) -> Option<(u64, u64)> {
        match update {
            DrawListUpdate::Retained => None,
            DrawListUpdate::ReplacePreflighted { list, environment } => Some((list, environment)),
            DrawListUpdate::CompareUnchecked { list, environment } => if self.list == Some(list)
                && self.environment_key == Some(environment) {
                None
            } else {
                Some((list, environment))
            },
        }
    }

    pub open spec fn spec_plan(
        self,
        update: DrawListUpdate,
        actual_environment: u64,
        camera_reusable: bool,
    ) -> Result<CompositePlan, SceneCacheError> {
        let replacement = self.replacement(update);
        let changed = replacement is Some;
        let environment = match replacement {
            Some((_, e)) => e,
            None => self.environment_key.unwrap(),
        };
        let list = match replacement {
            Some((l, _)) => l,
            None => self.list.unwrap(),
        };
        if environment != actual_environment {
            Err(
                SceneCacheError::FrameExecution(
                    FrameExecutionError::EnvironmentMismatch { expected: environment, actual: actual_environment },
                ),
            )
        } else {
            Ok(
                CompositePlan {
                    list,
                    environment,
                    drawlist_changed: changed,
                    needs_gradient_preflight: changed && update is CompareUnchecked,
                    reraster: !self.has_image || changed || !camera_reusable,
                },
            )
        }
    }

    /// Decide one composite. `camera_reusable` says the view keeps the cached
    /// zoom and pans within the cached margin. The environment check comes
    /// before any canvas is touched.
    pub fn plan_composite(
        &self,
        update: DrawListUpdate,
        actual_environment: u64,
        camera_reusable: bool,
    ) -> (plan: Result<CompositePlan, SceneCacheError>)
        requires
            self.can_composite(update),
        ensures
            plan == self.spec_plan(update, actual_environment, camera_reusable),
    {
        let replacement: Option<(u64, u64)> = match update {
            DrawListUpdate::Retained => None,
            DrawListUpdate::ReplacePreflighted { list, environment } => Some((list, environment)),
            DrawListUpdate::CompareUnchecked { list, environment } => {
                let same_list = match self.list {
                    Some(cached) => cached == list,
                    None => false,
                };
                let same_environment = match self.environment_key {
                    Some(cached) => cached == environment,
                    None => false,
                };
                if same_list && same_environment {
                    None
                } else {
                    Some((list, environment))
                }
            },
        };
        let changed = replacement.is_some();
        let (list, environment) = match replacement {
            Some(pair) => pair,
            None => (self.list.unwrap(), self.environment_key.unwrap()),
        };
        if environment != actual_environment {
            return Err(
                SceneCacheError::FrameExecution(
                    FrameExecutionError::EnvironmentMismatch { expected: environment, actual: actual_environment },
                ),
            );
        }
        let is_compare = match update {
            DrawListUpdate::CompareUnchecked { .. } => true,
            _ => false,
        };
        Ok(
            CompositePlan {
                list,
                environment,
                drawlist_changed: changed,
                needs_gradient_preflight: changed && is_compare,
                reraster: !self.has_image || changed || !camera_reusable,
            },
        )
    }

    pub open spec fn spec_commit(self, plan: CompositePlan, source_keys: SourceKeyCommit) -> SceneCacheState {
        if !plan.reraster {
            self
        } else {
            SceneCacheState {
                has_image: true,
                list: Some(plan.list),
                environment_key: Some(plan.environment),
                source_key: match source_keys {
                    SourceKeyCommit::Preserve => self.source_key,
                    SourceKeyCommit::Replace(keys) => Some(keys),
                    SourceKeyCommit::ClearIfDrawListChanged => if plan.drawlist_changed {
                        None
                    } else {
                        self.source_key
                    },
                },
            }
        }
    }

    /// Commit every cache field only after build, preflight, and offscreen
    /// replay have all succeeded. A frame that did not re-raster changes
    /// nothing.
    pub fn commit(&mut self, plan: CompositePlan, source_keys: SourceKeyCommit)
        ensures
            *final(self) == old(self).spec_commit(plan, source_keys),
    {
        if plan.reraster {
            self.has_image = true;
            self.list = Some(plan.list);
            self.environment_key = Some(plan.environment);
            match source_keys {
                SourceKeyCommit::Preserve => {},
                SourceKeyCommit::Replace(keys) => {
                    self.source_key = Some(keys);
                },
                SourceKeyCommit::ClearIfDrawListChanged => {
                    if plan.drawlist_changed {
                        self.source_key = None;
                    }
                },
            }
        }
    }
}

/// A source request that rebuilt and committed its keys is retained by the
/// next clean frame under the same environment: a camera-only frame never
/// re-resolves or re-builds.
pub proof fn lemma_rebuild_then_retain(
    state: SceneCacheState,
    request: SourceCacheRequest,
    list: u64,
    camera_reusable: bool,
)
    requires
        state.spec_plan(
            DrawListUpdate::ReplacePreflighted { list, environment: request.environment },
            request.environment,
            camera_reusable,
        ) is Ok,
    ensures
        ({
            let plan = state.spec_plan(
                DrawListUpdate::ReplacePreflighted { list, environment: request.environment },
                request.environment,
                camera_reusable,
            ).unwrap();
            let next = state.spec_commit(plan, SourceKeyCommit::Replace(request.keys));
            &&& plan.reraster
            &&& next.spec_decision(request, false) == SourceDrawListDecision::Retain
            &&& next.list == Some(list)
        }),
{
}

/// A paint-environment change always rebuilds the drawlist.
pub proof fn lemma_environment_change_rebuilds(state: SceneCacheState, request: SourceCacheRequest, doc_dirty: bool)
    requires
        state.environment_key != Some(request.environment),
    ensures
        state.spec_decision(request, doc_dirty) == SourceDrawListDecision::Rebuild,
{
}

/// Replacing the drawlist through the comparison entrance clears source
/// validity atomically: the next source request rebuilds whatever its keys.
pub proof fn lemma_changed_drawlist_clears_source_validity(
    state: SceneCacheState,
    list: u64,
    environment: u64,
    camera_reusable: bool,
    request: SourceCacheRequest,
    doc_dirty: bool,
)
    requires
        state.spec_plan(DrawListUpdate::CompareUnchecked { list, environment }, environment, camera_reusable) matches Ok(
            plan,
        ) && plan.drawlist_changed,
    ensures
        ({
            let plan = state.spec_plan(DrawListUpdate::CompareUnchecked { list, environment }, environment, camera_reusable).unwrap();
            state.spec_commit(plan, SourceKeyCommit::ClearIfDrawListChanged).spec_decision(request, doc_dirty)
                == SourceDrawListDecision::Rebuild
        }),
{
}

/// A raster-equal list under the same environment keeps the cache as it is
/// and, with a reusable camera, does not re-raster.
pub proof fn lemma_raster_equal_list_is_reused(state: SceneCacheState, list: u64, environment: u64)
    requires
        state.has_image,
        state.list == Some(list),
        state.environment_key == Some(environment),
    ensures
        state.spec_plan(DrawListUpdate::CompareUnchecked { list, environment }, environment, true) matches Ok(plan)
            && !plan.reraster && !plan.drawlist_changed
            && state.spec_commit(plan, SourceKeyCommit::ClearIfDrawListChanged) == state,
{
}


/// A frame that fails leaves the cache as it was. Planning fails only on a
/// drawlist offered under another paint environment than the frame's, and
/// then before anything is committed; every field — image, list,
/// environment and source key — stays, so a cache whose retained list served
/// a clean request keeps serving it, and the following clean frame with a
/// reusable camera neither re-rasters nor changes the cache.
pub proof fn lemma_failed_frame_is_transactional(
    state: SceneCacheState,
    update: DrawListUpdate,
    camera_reusable: bool,
    request: SourceCacheRequest,
)
    requires
        state.has_image,
        state.spec_decision(request, false) == SourceDrawListDecision::Retain,
        state.spec_plan(update, request.environment, camera_reusable) is Err,
    ensures
        state.spec_plan(update, request.environment, camera_reusable) matches Err(
            SceneCacheError::FrameExecution(FrameExecutionError::EnvironmentMismatch { expected, actual }),
        ) && actual == request.environment && expected != actual && !(update is Retained),
        state.spec_decision(request, false) == SourceDrawListDecision::Retain,
        state.spec_plan(DrawListUpdate::Retained, request.environment, true) matches Ok(plan) && !plan.reraster
            && !plan.drawlist_changed && state.spec_commit(plan, SourceKeyCommit::Preserve) == state,
{
}

/// In particular, a drawlist offered under another environment is refused
/// with the mismatch, through either entrance.
pub proof fn lemma_environment_mismatch_is_refused(state: SceneCacheState, list: u64, environment: u64, actual: u64)
    requires
        environment != actual,
        state.environment_key == Some(actual),
    ensures
        state.spec_plan(DrawListUpdate::CompareUnchecked { list, environment }, actual, true) == Err::<
            CompositePlan,
            SceneCacheError,
        >(SceneCacheError::FrameExecution(FrameExecutionError::EnvironmentMismatch { expected: environment, actual })),
        state.spec_plan(DrawListUpdate::ReplacePreflighted { list, environment }, actual, true) == Err::<
            CompositePlan,
            SceneCacheError,
        >(SceneCacheError::FrameExecution(FrameExecutionError::EnvironmentMismatch { expected: environment, actual })),
{
}

/// What a commit does to source validity: `Preserve` never touches the
/// source key; `Replace` installs the new keys exactly when the frame
/// re-rasters; `ClearIfDrawListChanged` drops the key exactly when a
/// re-raster changed the drawlist.
pub proof fn lemma_commit_source_key(state: SceneCacheState, plan: CompositePlan, keys: SourceCacheKeys)
    ensures
        state.spec_commit(plan, SourceKeyCommit::Preserve).source_key == state.source_key,
        state.spec_commit(plan, SourceKeyCommit::Replace(keys)).source_key == (if plan.reraster {
            Some(keys)
        } else {
            state.source_key
        }),
        state.spec_commit(plan, SourceKeyCommit::ClearIfDrawListChanged).source_key == (if plan.reraster
            && plan.drawlist_changed {
            None
        } else {
            state.source_key
        }),
{
}

/// A clean request the cache retains for stays retained across a
/// camera-only frame, whether or not the camera forces a re-raster: the
/// retained list is replayed and the source key is preserved.
pub proof fn lemma_camera_frames_keep_the_source(state: SceneCacheState, request: SourceCacheRequest, camera_reusable: bool)
    requires
        state.spec_decision(request, false) == SourceDrawListDecision::Retain,
    ensures
        state.spec_plan(DrawListUpdate::Retained, request.environment, camera_reusable) matches Ok(plan) && !plan.drawlist_changed
            && state.spec_commit(plan, SourceKeyCommit::Preserve).source_key == state.source_key
            && state.spec_commit(plan, SourceKeyCommit::Preserve).spec_decision(request, false)
            == SourceDrawListDecision::Retain,
{
}

/// A frame that did not re-raster commits nothing; one that did leaves the
/// cache replaying exactly the list and environment it rastered, so the next
/// retained frame with a reusable camera blits them without re-rastering.
pub proof fn lemma_commit_records_the_rastered_list(state: SceneCacheState, plan: CompositePlan, source_keys: SourceKeyCommit)
    ensures
        !plan.reraster ==> state.spec_commit(plan, source_keys) == state,
        plan.reraster ==> state.spec_commit(plan, source_keys).has_image && state.spec_commit(plan, source_keys).spec_plan(
            DrawListUpdate::Retained,
            plan.environment,
            true,
        ) == Ok::<CompositePlan, SceneCacheError>(
            CompositePlan {
                list: plan.list,
                environment: plan.environment,
                drawlist_changed: false,
                needs_gradient_preflight: false,
                reraster: false,
            },
        ),
{
}

} // verus!
