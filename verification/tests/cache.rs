use n0::cache::{
    CompositePlan, DrawListUpdate, FrameExecutionError, ResolveOptionsKey, RotationInFlow,
    SceneCacheError, SceneCacheState, SourceCacheKeys, SourceCacheRequest, SourceDrawListDecision,
    SourceKeyCommit,
};
use n0::ident::NodeKey;

fn keys(values: u64) -> SourceCacheKeys {
    SourceCacheKeys {
        options: ResolveOptionsKey {
            viewport_width_bits: 96f32.to_bits(),
            viewport_height_bits: 72f32.to_bits(),
            rotation_in_flow: RotationInFlow::VisualOnly,
        },
        scene: NodeKey {
            incarnation: 1,
            slot: 0,
            generation: 0,
        },
        values,
    }
}

fn request(values: u64, environment: u64) -> SourceCacheRequest {
    SourceCacheRequest {
        keys: keys(values),
        environment,
    }
}

/// Run one ordinary source frame through the decisions, committing on
/// success as a host does.
fn ordinary_frame(
    cache: &mut SceneCacheState,
    request: SourceCacheRequest,
    built_list: u64,
    camera_reusable: bool,
) -> Result<CompositePlan, SceneCacheError> {
    let decision = cache.source_drawlist_decision(&request, false);
    let (update, commit) = match decision {
        SourceDrawListDecision::Rebuild => (
            DrawListUpdate::ReplacePreflighted {
                list: built_list,
                environment: request.environment,
            },
            SourceKeyCommit::Replace(request.keys),
        ),
        SourceDrawListDecision::Retain => (DrawListUpdate::Retained, SourceKeyCommit::Preserve),
    };
    let plan = cache.plan_composite(update, request.environment, camera_reusable)?;
    cache.commit(plan, commit);
    Ok(plan)
}

#[test]
fn clean_source_requests_retain_the_drawlist() {
    let mut cache = SceneCacheState::new();
    let first = ordinary_frame(&mut cache, request(1, 9), 100, true).unwrap();
    assert!(first.reraster && first.drawlist_changed);
    assert_eq!(cache.source_drawlist_decision(&request(1, 9), false), SourceDrawListDecision::Retain);
    let pan = ordinary_frame(&mut cache, request(1, 9), 101, true).unwrap();
    assert!(!pan.reraster, "a clean camera-only frame blits");
    assert_eq!(pan.list, 100);
    let zoom = ordinary_frame(&mut cache, request(1, 9), 101, false).unwrap();
    assert!(zoom.reraster && !zoom.drawlist_changed);
    assert_eq!(cache.source_drawlist_decision(&request(1, 9), true), SourceDrawListDecision::Rebuild);
    assert_eq!(cache.source_drawlist_decision(&request(2, 9), false), SourceDrawListDecision::Rebuild);
    assert_eq!(cache.source_drawlist_decision(&request(1, 8), false), SourceDrawListDecision::Rebuild);
}

#[test]
fn drawlist_environment_mismatch_fails_before_commit() {
    let mut cache = SceneCacheState::new();
    ordinary_frame(&mut cache, request(1, 9), 100, true).unwrap();
    let before = cache;
    let error = cache
        .plan_composite(
            DrawListUpdate::CompareUnchecked {
                list: 200,
                environment: 8,
            },
            9,
            true,
        )
        .expect_err("mismatched drawlist environment must fail");
    assert_eq!(
        error,
        SceneCacheError::FrameExecution(FrameExecutionError::EnvironmentMismatch {
            expected: 8,
            actual: 9
        })
    );
    assert_eq!(cache, before);
}

#[test]
fn environment_mismatch_leaves_the_next_clean_frame_reusing() {
    let mut cache = SceneCacheState::new();
    ordinary_frame(&mut cache, request(1, 9), 100, true).unwrap();
    let before = cache;
    for update in [
        DrawListUpdate::CompareUnchecked { list: 200, environment: 8 },
        DrawListUpdate::ReplacePreflighted { list: 200, environment: 8 },
    ] {
        assert_eq!(
            cache.plan_composite(update, 9, true),
            Err(SceneCacheError::FrameExecution(FrameExecutionError::EnvironmentMismatch { expected: 8, actual: 9 }))
        );
    }
    let next = ordinary_frame(&mut cache, request(1, 9), 300, true).unwrap();
    assert!(!next.reraster && !next.drawlist_changed);
    assert_eq!(next.list, 100);
    assert_eq!(cache, before);
}

#[test]
fn raster_equal_drawlists_reuse_and_changed_ones_clear_source_validity() {
    let mut cache = SceneCacheState::new();
    ordinary_frame(&mut cache, request(1, 9), 100, true).unwrap();

    let equal = cache
        .plan_composite(DrawListUpdate::CompareUnchecked { list: 100, environment: 9 }, 9, true)
        .unwrap();
    assert!(!equal.drawlist_changed && !equal.reraster && !equal.needs_gradient_preflight);
    cache.commit(equal, SourceKeyCommit::ClearIfDrawListChanged);
    assert_eq!(
        cache.source_drawlist_decision(&request(1, 9), false),
        SourceDrawListDecision::Retain,
        "raster-equal drawlist reuse must preserve source validity"
    );

    let changed = cache
        .plan_composite(DrawListUpdate::CompareUnchecked { list: 300, environment: 9 }, 9, true)
        .unwrap();
    assert!(changed.drawlist_changed && changed.reraster && changed.needs_gradient_preflight);
    cache.commit(changed, SourceKeyCommit::ClearIfDrawListChanged);
    assert_eq!(cache.source_key, None, "drawlist replacement must clear source validity atomically");
    assert_eq!(cache.list, Some(300));
    assert_eq!(
        cache.source_drawlist_decision(&request(1, 9), false),
        SourceDrawListDecision::Rebuild,
        "ordinary source must rebuild after replacement"
    );
}

#[test]
fn cache_failures_convert_into_their_seams() {
    let error = n0::properties::PropertyError::InvalidValue {
        target: n0::properties::PropertyTarget::new(
            n0::ident::NodeKey { incarnation: 1, slot: 2, generation: 0 },
            n0::properties::PropertyKey::Opacity,
        ),
    };
    let cache_error = n0::cache::SceneCacheError::from(error.clone());
    assert_eq!(cache_error, n0::cache::SceneCacheError::Property(error));
    let build = n0::cache::FrameBuildError { reason: "gradient".to_string() };
    assert_eq!(
        n0::cache::SceneCacheError::from(build.clone()),
        n0::cache::SceneCacheError::FrameBuild(build)
    );
    let request = n0::cache::SceneCacheRequestError::from(cache_error.clone());
    assert_eq!(request, n0::cache::SceneCacheRequestError::Cache(cache_error));
    let sample = n0::program::SampleError::DocumentMismatch {
        compiler_id: "c".to_string(),
        time: n0::program::SampleTime { nanoseconds: 0 },
        expected: n0::ident::NodeKey { incarnation: 1, slot: 0, generation: 0 },
        actual: None,
    };
    assert_eq!(
        n0::cache::SceneCacheRequestError::from(sample.clone()),
        n0::cache::SceneCacheRequestError::Sample(sample)
    );
}
