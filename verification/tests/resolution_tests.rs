use tpmgr::resolution::{AttemptOutcome, IterativeResolutionLoop, ResolutionStatus};

fn failing(output: &str) -> AttemptOutcome {
    AttemptOutcome { success: false, failed_step: 1, output: output.to_string() }
}

fn failing_at(step: usize, output: &str) -> AttemptOutcome {
    AttemptOutcome { success: false, failed_step: step, output: output.to_string() }
}

fn succeeding() -> AttemptOutcome {
    AttemptOutcome { success: true, failed_step: 0, output: String::new() }
}

#[test]
fn always_succeeding_probe_converges_after_one_iteration() {
    let looper = IterativeResolutionLoop::new();
    let outcomes = vec![succeeding(), succeeding(), succeeding()];
    let report = looper.run(&outcomes);
    assert!(matches!(report.status, ResolutionStatus::Converged));
    assert_eq!(report.iterations, 1);
    assert!(report.missing_packages.is_empty());
}

#[test]
fn repeated_identical_failure_stalls_after_two_iterations() {
    let looper = IterativeResolutionLoop::new();
    let out = "! LaTeX Error: File `minted.sty' not found.";
    let outcomes: Vec<AttemptOutcome> = (0..10).map(|_| failing(out)).collect();
    let report = looper.run(&outcomes);
    assert!(matches!(report.status, ResolutionStatus::Stalled));
    assert_eq!(report.iterations, 2);
    assert_eq!(report.missing_packages, vec!["minted"]);
}

#[test]
fn non_package_failure_is_fatal_with_step_and_raw_output() {
    let looper = IterativeResolutionLoop::new();
    let out = "! Missing $ inserted.";
    let outcomes = vec![failing_at(2, out)];
    let report = looper.run(&outcomes);
    match report.status {
        ResolutionStatus::Fatal { step, output } => {
            assert_eq!(step, 2);
            assert_eq!(output, out);
        }
        other => panic!("expected a fatal end, got {:?}", other),
    }
    assert_eq!(report.iterations, 1);
}

#[test]
fn unidentifiable_package_failure_is_fatal() {
    let looper = IterativeResolutionLoop::new();
    // package-indicative, but no pattern captures a name
    let out = "! LaTeX Error: Environment theorem undefined.";
    let outcomes = vec![failing(out)];
    let report = looper.run(&outcomes);
    assert!(matches!(report.status, ResolutionStatus::Fatal { .. }));
}

#[test]
fn new_packages_accumulate_across_iterations() {
    let looper = IterativeResolutionLoop::new();
    let outcomes = vec![
        failing("! LaTeX Error: File `minted.sty' not found."),
        failing("! LaTeX Error: File `booktabs.sty' not found."),
        succeeding(),
    ];
    let report = looper.run(&outcomes);
    assert!(matches!(report.status, ResolutionStatus::Converged));
    assert_eq!(report.iterations, 3);
    assert_eq!(report.missing_packages, vec!["minted", "booktabs"]);
}

#[test]
fn probe_without_outcomes_is_exhausted_at_zero() {
    let looper = IterativeResolutionLoop::new();
    let outcomes: Vec<AttemptOutcome> = Vec::new();
    let report = looper.run(&outcomes);
    assert!(matches!(report.status, ResolutionStatus::ExhaustedIterations));
    assert_eq!(report.iterations, 0);
}

#[test]
fn names_keep_first_discovery_order_grouped_and_ascending() {
    let looper = IterativeResolutionLoop::new();
    let outcomes = vec![
        failing(
            "! LaTeX Error: File `zeta.sty' not found.\n! LaTeX Error: File `beta.sty' not found.",
        ),
        failing("! LaTeX Error: File `alpha.sty' not found."),
        succeeding(),
    ];
    let report = looper.run(&outcomes);
    assert!(matches!(report.status, ResolutionStatus::Converged));
    // ascending within the first attempt's group, later discoveries after
    assert_eq!(report.missing_packages, vec!["beta", "zeta", "alpha"]);
}
