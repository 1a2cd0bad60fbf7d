use n0::rig::{
    bench_entry_passes, bench_verdict, bless_allowed, missing_provenance, paired_bless, shot_candidate_complete,
    shot_verdict, shots_pass, BenchVerdict, ShotVerdict,
};

#[test]
fn shot_and_timing_baselines_are_blessed_together() {
    assert_eq!(paired_bless(true, true), Some(true));
    assert_eq!(paired_bless(false, false), Some(false));
    assert_eq!(paired_bless(true, false), None);
    assert_eq!(paired_bless(false, true), None);
}

#[test]
fn unset_and_empty_provenance_is_missing_in_order() {
    let provenance = vec![
        ("N0_GATE_HOST_ID".to_string(), Some("ci-linux".to_string())),
        ("N0_GATE_SOURCE_SHA".to_string(), None),
        ("N0_GATE_CI_RUN_ID".to_string(), Some(String::new())),
        ("N0_GATE_RUST_TOOLCHAIN".to_string(), Some("1.90".to_string())),
        ("N0_GATE_SKIA_SAFE".to_string(), None),
    ];
    let missing = missing_provenance(&provenance);
    assert_eq!(missing, vec!["N0_GATE_SOURCE_SHA", "N0_GATE_CI_RUN_ID", "N0_GATE_SKIA_SAFE"]);
    assert!(!bless_allowed(true, &missing));
    assert!(bless_allowed(true, &vec![]));
    assert!(!bless_allowed(false, &vec![]));
}

#[test]
fn shot_verdicts_distinguish_goldens_from_repeats() {
    assert_eq!(shot_verdict(true, true), ShotVerdict::Identical);
    assert_eq!(shot_verdict(true, false), ShotVerdict::Diff);
    assert_eq!(shot_verdict(false, true), ShotVerdict::Deterministic);
    assert_eq!(shot_verdict(false, false), ShotVerdict::Nondeterministic);
}

#[test]
fn shots_need_an_owned_baseline_only_where_required() {
    assert!(shots_pass(true, false, true, true, true));
    assert!(shots_pass(true, false, true, false, false));
    assert!(!shots_pass(true, false, true, false, true));
    assert!(!shots_pass(true, false, false, false, false));
    assert!(shots_pass(true, true, false, false, true));
    assert!(!shots_pass(false, false, true, true, false));
}

#[test]
fn bench_entries_are_judged_by_baseline_ownership() {
    assert_eq!(bench_verdict(true, false, false, false), BenchVerdict::Recording);
    assert_eq!(bench_verdict(false, false, true, true), BenchVerdict::MissingBaseline);
    assert_eq!(bench_verdict(false, true, false, false), BenchVerdict::MissingOwner);
    assert_eq!(bench_verdict(false, true, true, false), BenchVerdict::Skipped);
    assert_eq!(bench_verdict(false, true, true, true), BenchVerdict::Compared);
    assert!(bench_entry_passes(BenchVerdict::Skipped, false, false));
    assert!(!bench_entry_passes(BenchVerdict::Skipped, true, true));
    assert!(!bench_entry_passes(BenchVerdict::MissingOwner, false, true));
    assert!(bench_entry_passes(BenchVerdict::Compared, true, true));
    assert!(!bench_entry_passes(BenchVerdict::Compared, false, false));
    assert!(bench_entry_passes(BenchVerdict::Recording, true, false));
}

#[test]
fn a_baseline_set_needs_every_shot_state() {
    assert!(shot_candidate_complete(4));
    assert!(!shot_candidate_complete(3));
}
