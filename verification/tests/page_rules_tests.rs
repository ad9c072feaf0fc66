use simplesync::keyring::secret_from_output;
use simplesync::ui::{
    login_init_accepted, refusal_text, scan_failed_text, sequence_end_text, Refusal, RunGuard,
};

#[test]
fn only_one_run_at_a_time() {
    let mut g = RunGuard::new();
    assert!(!g.is_busy());
    assert_eq!(g.request(), Ok(()));
    assert!(g.confirm());
    assert!(g.is_busy());
    assert_eq!(g.request(), Err("An operation is already in progress".to_string()));
    assert!(!g.confirm());
    assert!(g.is_busy());
    g.finished();
    assert!(!g.is_busy());
    assert!(g.confirm());
    assert!(!RunGuard::default().is_busy());
}

#[test]
fn page_texts() {
    assert_eq!(refusal_text(Refusal::NoAccountForTarget), "No account configured. Set up an account first.");
    assert_eq!(refusal_text(Refusal::NoAccount), "No account configured");
    assert_eq!(refusal_text(Refusal::TargetNotFound), "Target not found");
    assert_eq!(refusal_text(Refusal::NoTargetsToPush), "No targets to push");
    assert_eq!(refusal_text(Refusal::NoTargetsToPull), "No targets to pull");
    assert_eq!(refusal_text(Refusal::ScanFailed), "Failed to scan targets");
    assert_eq!(scan_failed_text("IO error: x"), "Scan failed: IO error: x");
    assert_eq!(sequence_end_text(true, true), "Push all cancelled");
    assert_eq!(sequence_end_text(true, false), "All targets pushed");
    assert_eq!(sequence_end_text(false, true), "Pull all cancelled");
    assert_eq!(sequence_end_text(false, false), "All targets pulled");
}

#[test]
fn login_start_needs_a_success_status() {
    assert!(login_init_accepted(200));
    assert!(login_init_accepted(299));
    assert!(!login_init_accepted(300));
    assert!(!login_init_accepted(404));
    assert!(!login_init_accepted(199));
}

#[test]
fn lookup_output_is_read_as_utf8() {
    assert_eq!(secret_from_output(true, b"  s3cret\n"), Some("s3cret".to_string()));
    assert_eq!(secret_from_output(true, b"\xFFab"), Some("\u{FFFD}ab".to_string()));
    assert_eq!(secret_from_output(false, b"s3cret"), None);
    assert_eq!(secret_from_output(true, b" \n"), None);
}
