use simplesync::db::Target;
use simplesync::pull::{pull_check_paths, pull_plan, PullPlan};
use simplesync::push::{PushPlan, PushRun};
use simplesync::ui::{pull_plan_totals, pull_prompt, push_plan_totals, push_prompt};

fn target(mode: &str) -> Target {
    Target {
        id: 3,
        local_path: "/home/u/Docs".to_string(),
        remote_path: "/Backup/".to_string(),
        mode: mode.to_string(),
        last_push: None,
        created_at: String::new(),
    }
}

fn strings(v: &[&str]) -> Vec<String> {
    v.iter().map(|s| s.to_string()).collect()
}

#[test]
fn push_plan_is_known_once_every_file_is_compared() {
    let mut run = PushRun::new(&target("mirror"), false);
    assert_eq!(run.plan(), None);
    run.database_opened(Ok(()));
    run.scanned(Ok(strings(&["a", "b", "c"])));
    run.checked(true);
    assert_eq!(run.plan(), None);
    run.checked(false);
    run.checked(false);
    assert_eq!(run.plan(), Some(PushPlan { to_upload: 2, to_skip: 1, is_mirror: true }));
}

#[test]
fn a_failed_scan_has_no_plan() {
    let mut run = PushRun::new(&target("upload"), false);
    run.database_opened(Ok(()));
    run.scanned(Err("Local path does not exist: /x".to_string()));
    assert_eq!(run.plan(), None);
    assert_eq!(run.outcome().unwrap_err(), "Local path does not exist: /x");
}

#[test]
fn pull_checks_the_local_copies_of_listed_files() {
    let files = strings(&["/Backup/a.txt", "/Backup/", "/Backup/sub/b.txt"]);
    assert_eq!(
        pull_check_paths(&target("upload"), &files),
        strings(&["/home/u/Docs/a.txt", "/home/u/Docs/sub/b.txt"])
    );
    assert_eq!(pull_plan(&vec![true, false, false]), PullPlan { to_download: 2, to_skip: 1 });
    assert_eq!(pull_plan(&vec![]), PullPlan { to_download: 0, to_skip: 0 });
}

#[test]
fn prompts_before_push_and_pull() {
    assert_eq!(
        push_prompt(PushPlan { to_upload: 0, to_skip: 4, is_mirror: true }, None),
        Err("Nothing to push — all files up to date".to_string())
    );
    assert_eq!(
        push_prompt(PushPlan { to_upload: 3, to_skip: 4, is_mirror: false }, None),
        Ok("3 file(s) to upload, 4 to skip".to_string())
    );
    assert_eq!(
        push_prompt(PushPlan { to_upload: 1, to_skip: 0, is_mirror: true }, Some(2)),
        Ok("1 file(s) to upload, 0 to skip across 2 target(s)\n\nMirror mode: remote files not in local will be deleted"
            .to_string())
    );
    assert_eq!(
        pull_prompt(PullPlan { to_download: 0, to_skip: 9 }, Some(3)),
        Err("Nothing to pull — all files up to date".to_string())
    );
    assert_eq!(
        pull_prompt(PullPlan { to_download: 5, to_skip: 9 }, Some(3)),
        Ok("5 file(s) to download, 9 to skip across 3 target(s)".to_string())
    );
}

#[test]
fn plans_add_up() {
    let plans = vec![
        PushPlan { to_upload: 2, to_skip: 1, is_mirror: false },
        PushPlan { to_upload: 5, to_skip: 0, is_mirror: true },
    ];
    assert_eq!(push_plan_totals(&plans), Some(PushPlan { to_upload: 7, to_skip: 1, is_mirror: true }));
    assert_eq!(push_plan_totals(&vec![]), Some(PushPlan { to_upload: 0, to_skip: 0, is_mirror: false }));
    let big = vec![PushPlan { to_upload: u32::MAX, to_skip: 0, is_mirror: false }; 2];
    assert_eq!(push_plan_totals(&big), None);
    let pulls = vec![PullPlan { to_download: 1, to_skip: 2 }, PullPlan { to_download: 3, to_skip: 4 }];
    assert_eq!(pull_plan_totals(&pulls), Some(PullPlan { to_download: 4, to_skip: 6 }));
    assert_eq!(pull_plan_totals(&vec![PullPlan { to_download: 0, to_skip: u32::MAX }; 2]), None);
}
