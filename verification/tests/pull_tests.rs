use simplesync::db::Target;
use simplesync::pull::{pull_completion, pull_relative_path, PullProgress, PullRun, PullStep, PullSummary};
use simplesync::webdav::WebDAVError;

fn target() -> Target {
    Target {
        id: 1,
        local_path: "/home/u/Pics".to_string(),
        remote_path: "/Photos/".to_string(),
        mode: "upload".to_string(),
        last_push: None,
        created_at: "2024-01-01".to_string(),
    }
}

#[test]
fn relative_paths() {
    assert_eq!(pull_relative_path("/Photos/a/b.jpg", "/Photos/"), "a/b.jpg");
    assert_eq!(pull_relative_path("/Photos", "/Photos"), "");
    assert_eq!(pull_relative_path("/Other/x", "/Photos"), "Other/x");
    assert_eq!(pull_relative_path("/x.jpg", "/"), "x.jpg");
}

#[test]
fn pull_downloads_missing_files_and_skips_present_ones() {
    let mut run = PullRun::new(&target());
    match run.begin(false) {
        PullStep::ListRemote(p) => assert_eq!(p, "/Photos/"),
        other => panic!("unexpected {:?}", other),
    }
    let files = vec!["/Photos/a.jpg".to_string(), "/Photos/b.jpg".to_string(), "/Photos/c.jpg".to_string()];
    match run.listed(Ok(files), false) {
        PullStep::CheckLocal(l) => assert_eq!(l, "/home/u/Pics/a.jpg"),
        other => panic!("unexpected {:?}", other),
    }
    match run.local_checked(true, false) {
        PullStep::CheckLocal(l) => assert_eq!(l, "/home/u/Pics/b.jpg"),
        other => panic!("unexpected {:?}", other),
    }
    match run.local_checked(false, false) {
        PullStep::Download { remote_file, local_file, progress } => {
            assert_eq!(remote_file, "Photos/b.jpg");
            assert_eq!(local_file, "/home/u/Pics/b.jpg");
            match progress {
                PullProgress::File { current_file, files_done, files_total } => {
                    assert_eq!(current_file, "b.jpg");
                    assert_eq!(files_done, 1);
                    assert_eq!(files_total, 3);
                }
                _ => panic!("expected file progress"),
            }
        }
        other => panic!("unexpected {:?}", other),
    }
    assert!(matches!(run.downloaded(Ok(()), false), PullStep::CheckLocal(_)));
    assert!(matches!(run.local_checked(false, false), PullStep::Download { .. }));
    let step = run.downloaded(Err(WebDAVError::Http("GET returned status 500".to_string())), false);
    assert!(matches!(step, PullStep::Finished));
    let summary = run.outcome().unwrap();
    assert_eq!(summary.downloaded, 1);
    assert_eq!(summary.skipped, 1);
    assert_eq!(summary.errors, vec!["c.jpg: HTTP error: GET returned status 500".to_string()]);
    assert!(!summary.cancelled);
}

#[test]
fn pull_cancelled_before_start() {
    let mut run = PullRun::new(&target());
    assert!(matches!(run.begin(true), PullStep::Finished));
    let s = run.outcome().unwrap();
    assert!(s.cancelled);
    match pull_completion(Ok(s)) {
        PullProgress::Complete { success, .. } => assert!(!success),
        _ => panic!(),
    }
}

#[test]
fn pull_cancelled_midway_and_listing_failure() {
    let mut run = PullRun::new(&target());
    run.begin(false);
    let files = vec!["/Photos/a.jpg".to_string()];
    assert!(matches!(run.listed(Ok(files), true), PullStep::Finished));
    assert!(run.outcome().unwrap().cancelled);

    let mut run = PullRun::new(&target());
    run.begin(false);
    assert!(matches!(run.listed(Err(WebDAVError::Http("down".to_string())), false), PullStep::Finished));
    assert_eq!(run.outcome().unwrap_err(), "Failed to list remote files: HTTP error: down");
}

#[test]
fn pull_completion_reports() {
    let ok = PullSummary { downloaded: 2, skipped: 0, errors: vec![], cancelled: false };
    match pull_completion(Ok(ok)) {
        PullProgress::Complete { success, summary } => {
            assert!(success);
            assert_eq!(summary.downloaded, 2);
        }
        _ => panic!(),
    }
    match pull_completion(Err("boom".to_string())) {
        PullProgress::Complete { success, summary } => {
            assert!(!success);
            assert_eq!(summary.errors, vec!["boom".to_string()]);
        }
        _ => panic!(),
    }
}
