use simplesync::db::Target;
use simplesync::push::{push_completion, missing_local_path, PushProgress, PushRun, PushStep};
use simplesync::webdav::WebDAVError;

fn target(mode: &str) -> Target {
    Target {
        id: 7,
        local_path: "/home/u/Docs".to_string(),
        remote_path: "/Backup/".to_string(),
        mode: mode.to_string(),
        last_push: None,
        created_at: "2024-01-01".to_string(),
    }
}

fn strings(v: &[&str]) -> Vec<String> {
    v.iter().map(|s| s.to_string()).collect()
}

#[test]
fn push_in_upload_mode() {
    let mut run = PushRun::new(&target("upload"), false);
    assert!(matches!(run.next_step(), PushStep::OpenDatabase));
    run.database_opened(Ok(()));
    match run.next_step() {
        PushStep::ScanLocal(p) => assert_eq!(p, "/home/u/Docs"),
        other => panic!("unexpected {:?}", other),
    }
    run.scanned(Ok(strings(&["a.txt", "sub/b.txt", "sub/c.txt"])));
    match run.next_step() {
        PushStep::CheckFileState { index, rel_path } => {
            assert_eq!(index, 0);
            assert_eq!(rel_path, "a.txt");
        }
        other => panic!("unexpected {:?}", other),
    }
    run.checked(true);
    run.checked(false);
    run.checked(false);
    let mut mkdirs = Vec::new();
    while let PushStep::CreateDirectory(p) = run.next_step() {
        mkdirs.push(p);
        run.directory_created(Ok(()));
    }
    assert_eq!(mkdirs, strings(&["Backup", "Backup/sub"]));
    match run.next_step() {
        PushStep::Upload { index, local_file, remote_file, progress } => {
            assert_eq!(index, 1);
            assert_eq!(local_file, "/home/u/Docs/sub/b.txt");
            assert_eq!(remote_file, "/Backup/sub/b.txt");
            match progress {
                PushProgress::File { current_file, files_done, files_total } => {
                    assert_eq!(current_file, "sub/b.txt");
                    assert_eq!(files_done, 0);
                    assert_eq!(files_total, 2);
                }
                _ => panic!(),
            }
        }
        other => panic!("unexpected {:?}", other),
    }
    run.uploaded(Ok(()));
    match run.next_step() {
        PushStep::RecordFileState { index, rel_path } => {
            assert_eq!(index, 1);
            assert_eq!(rel_path, "sub/b.txt");
        }
        other => panic!("unexpected {:?}", other),
    }
    run.recorded();
    assert!(matches!(run.next_step(), PushStep::Upload { index: 2, .. }));
    run.uploaded(Err(WebDAVError::Http("PUT returned status 507".to_string())));
    assert!(matches!(run.next_step(), PushStep::RecordLastPush));
    run.last_push_recorded();
    assert!(matches!(run.next_step(), PushStep::Finished));
    let s = run.outcome().unwrap();
    assert_eq!(s.uploaded, 1);
    assert_eq!(s.skipped, 1);
    assert_eq!(s.deleted, 0);
    assert_eq!(s.errors, strings(&["sub/c.txt: HTTP error: PUT returned status 507"]));
}

#[test]
fn forced_mirror_push_deletes_remote_extras() {
    let mut run = PushRun::new(&target("mirror"), true);
    run.database_opened(Ok(()));
    run.scanned(Ok(strings(&["a.txt"])));
    assert!(matches!(run.next_step(), PushStep::ClearFileStates));
    run.cleared();
    run.checked(false);
    assert!(matches!(run.next_step(), PushStep::CreateDirectory(_)) == false);
    assert!(matches!(run.next_step(), PushStep::Upload { .. }));
    run.uploaded(Ok(()));
    run.recorded();
    match run.next_step() {
        PushStep::ListRemote(p) => assert_eq!(p, "/Backup/"),
        other => panic!("unexpected {:?}", other),
    }
    run.listed(Ok(strings(&["/Backup/a.txt", "/Backup/old.txt", "/Backup/gone.txt"])));
    match run.next_step() {
        PushStep::DeleteRemote(p) => assert_eq!(p, "/Backup/old.txt"),
        other => panic!("unexpected {:?}", other),
    }
    run.deleted(Ok(()));
    run.deleted(Err(WebDAVError::Http("DELETE returned status 403".to_string())));
    assert!(matches!(run.next_step(), PushStep::RecordLastPush));
    run.last_push_recorded();
    let s = run.outcome().unwrap();
    assert_eq!(s.uploaded, 1);
    assert_eq!(s.deleted, 1);
    assert_eq!(s.errors, strings(&["delete /Backup/gone.txt: HTTP error: DELETE returned status 403"]));
}

#[test]
fn mirror_listing_failure_is_recorded() {
    let mut run = PushRun::new(&target("mirror"), false);
    run.database_opened(Ok(()));
    run.scanned(Ok(vec![]));
    assert!(matches!(run.next_step(), PushStep::ListRemote(_)));
    run.listed(Err(WebDAVError::Http("PROPFIND returned status 500".to_string())));
    assert!(matches!(run.next_step(), PushStep::RecordLastPush));
    run.last_push_recorded();
    let s = run.outcome().unwrap();
    assert_eq!(s.errors, strings(&["Mirror listing failed: HTTP error: PROPFIND returned status 500"]));
}

#[test]
fn push_failures_before_start() {
    let mut run = PushRun::new(&target("upload"), false);
    run.database_opened(Err("unable to open".to_string()));
    assert!(matches!(run.next_step(), PushStep::Finished));
    assert_eq!(run.outcome().unwrap_err(), "DB error: unable to open");

    let mut run = PushRun::new(&target("upload"), false);
    run.database_opened(Ok(()));
    run.scanned(Err(missing_local_path("/nope")));
    assert_eq!(run.outcome().unwrap_err(), "Local path does not exist: /nope");
}

#[test]
fn mkdir_errors_are_recorded() {
    let mut run = PushRun::new(&target("upload"), false);
    run.database_opened(Ok(()));
    run.scanned(Ok(strings(&["d/x"])));
    run.checked(false);
    assert!(matches!(run.next_step(), PushStep::CreateDirectory(_)));
    run.directory_created(Err(WebDAVError::Http("MKCOL returned status 409".to_string())));
    run.directory_created(Ok(()));
    run.uploaded(Ok(()));
    run.recorded();
    run.last_push_recorded();
    let s = run.outcome().unwrap();
    assert_eq!(s.errors, strings(&["mkdir Backup: HTTP error: MKCOL returned status 409"]));
    match push_completion(Ok(s)) {
        PushProgress::Complete { success, .. } => assert!(!success),
        _ => panic!(),
    }
}
