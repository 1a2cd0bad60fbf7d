//! Verdicts of the engine's check harness: whether new baselines may be
//! captured, what each shot comparison yields, and which shot and timing
//! outcomes pass. Running binaries, reading files and measuring time happen
//! around these verdicts, which see only their plain outcomes.

use vstd::prelude::*;

verus! {

/// The number of shot states one complete baseline set holds.
pub const SHOT_STATES: usize = 4;

/// Shot and timing baselines share one host owner, so they are captured
/// together or not at all: the pair of flags must agree.
pub fn paired_bless(bless_shots: bool, bless_bench: bool) -> (bless: Option<bool>)
    ensures
        bless == (if bless_shots == bless_bench {
            Some(bless_shots)
        } else {
            None::<bool>
        }),
{
    if bless_shots != bless_bench {
        None
    } else {
        Some(bless_shots)
    }
}

/// The provenance names whose value is unset or empty, in order.
pub open spec fn missing_views(provenance: Seq<(String, Option<String>)>) -> Seq<Seq<char>>
    decreases provenance.len(),
{
    if provenance.len() == 0 {
        Seq::empty()
    } else {
        let earlier = missing_views(provenance.drop_last());
        let (name, value) = provenance.last();
        if value is None || value.unwrap()@.len() == 0 {
            earlier.push(name@)
        } else {
            earlier
        }
    }
}

/// The provenance variables a baseline candidate lacks: those unset or set
/// to the empty string, in the order given.
pub fn missing_provenance(provenance: &Vec<(String, Option<String>)>) -> (missing: Vec<String>)
    ensures
        missing@.map_values(|name: String| name@) == missing_views(provenance@),
{
    let mut missing: Vec<String> = Vec::new();
    let mut i: usize = 0;
    while i < provenance.len()
        invariant
            i <= provenance@.len(),
            missing@.map_values(|name: String| name@) == missing_views(provenance@.take(i as int)),
        decreases provenance@.len() - i,
    {
        assert(provenance@.take(i + 1).drop_last() =~= provenance@.take(i as int));
        let absent = match &provenance[i].1 {
            None => true,
            Some(value) => value.as_str().is_empty(),
        };
        if absent {
            let ghost before = missing@;
            missing.push(provenance[i].0.clone());
            assert(missing@.map_values(|name: String| name@) =~= before.map_values(|name: String| name@).push(
                provenance@[i as int].0@,
            ));
        }
        i += 1;
    }
    assert(provenance@.take(provenance@.len() as int) =~= provenance@);
    missing
}

/// A baseline candidate may be captured only where host baselines are
/// required and the CI provenance is complete.
pub fn bless_allowed(require_host_baselines: bool, missing: &Vec<String>) -> (allowed: bool)
    ensures
        allowed == (require_host_baselines && missing@.len() == 0),
{
    require_host_baselines && missing.len() == 0
}

/// What one shot comparison yields: against the host's own goldens, or
/// as a same-host repeat on a host that does not own them.
#[derive(Debug, Clone, Copy, PartialEq, Eq, Structural)]
pub enum ShotVerdict {
    Identical,
    Diff,
    Deterministic,
    Nondeterministic,
}

pub fn shot_verdict(owns_baselines: bool, same: bool) -> (verdict: ShotVerdict)
    ensures
        verdict == (if owns_baselines {
            if same {
                ShotVerdict::Identical
            } else {
                ShotVerdict::Diff
            }
        } else if same {
            ShotVerdict::Deterministic
        } else {
            ShotVerdict::Nondeterministic
        }),
{
    if owns_baselines {
        if same {
            ShotVerdict::Identical
        } else {
            ShotVerdict::Diff
        }
    } else if same {
        ShotVerdict::Deterministic
    } else {
        ShotVerdict::Nondeterministic
    }
}

/// The shot gate passes when every state compared equal, unless (outside a
/// capture) the committed baseline has no host owner, or host baselines
/// are required and this host does not own them.
pub fn shots_pass(
    all_same: bool,
    bless: bool,
    baseline_host_known: bool,
    owns_baselines: bool,
    require_host_baselines: bool,
) -> (pass: bool)
    ensures
        pass == (all_same && (bless || (baseline_host_known && (owns_baselines || !require_host_baselines)))),
{
    if !bless && !baseline_host_known {
        false
    } else if !bless && !owns_baselines && require_host_baselines {
        false
    } else {
        all_same
    }
}

/// How one timing entry is judged.
#[derive(Debug, Clone, Copy, PartialEq, Eq, Structural)]
pub enum BenchVerdict {
    /// The entry is being captured for a new baseline.
    Recording,
    MissingBaseline,
    MissingOwner,
    /// Another host owns the baseline; no comparison is made.
    Skipped,
    /// Compared against this host's own baseline.
    Compared,
}

pub fn bench_verdict(bless: bool, has_prior: bool, prior_host_known: bool, same_host: bool) -> (verdict:
    BenchVerdict)
    ensures
        verdict == (if bless {
            BenchVerdict::Recording
        } else if !has_prior {
            BenchVerdict::MissingBaseline
        } else if !prior_host_known {
            BenchVerdict::MissingOwner
        } else if !same_host {
            BenchVerdict::Skipped
        } else {
            BenchVerdict::Compared
        }),
{
    if bless {
        BenchVerdict::Recording
    } else if !has_prior {
        BenchVerdict::MissingBaseline
    } else if !prior_host_known {
        BenchVerdict::MissingOwner
    } else if !same_host {
        BenchVerdict::Skipped
    } else {
        BenchVerdict::Compared
    }
}

/// Whether a judged entry passes: a skipped comparison passes only where
/// host baselines are not required, and a compared one when both timings
/// stay within budget.
pub fn bench_entry_passes(verdict: BenchVerdict, require_host_baselines: bool, within_budget: bool) -> (pass: bool)
    ensures
        pass == match verdict {
            BenchVerdict::Recording => true,
            BenchVerdict::MissingBaseline | BenchVerdict::MissingOwner => false,
            BenchVerdict::Skipped => !require_host_baselines,
            BenchVerdict::Compared => within_budget,
        },
{
    match verdict {
        BenchVerdict::Recording => true,
        BenchVerdict::MissingBaseline | BenchVerdict::MissingOwner => false,
        BenchVerdict::Skipped => !require_host_baselines,
        BenchVerdict::Compared => within_budget,
    }
}

/// A baseline set installs only with one captured shot per state.
pub fn shot_candidate_complete(captured: usize) -> (complete: bool)
    ensures
        complete == (captured == SHOT_STATES),
{
    captured == SHOT_STATES
}

} // verus!
