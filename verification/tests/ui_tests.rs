use simplesync::db::{mode_for, Target};
use simplesync::pull::PullSummary;
use simplesync::push::PushSummary;
use simplesync::ui::{
    connection_test_text, folder_entries, login_error_text, login_init_url, mode_label,
    new_folder_path, normalize_server_url, parent_folder, poll_decision, progress_text,
    pull_result_message, push_result_message, sequence_step, shows_parent_row, sort_folders, target_subtitle,
    target_title, LoginFailure, PollDecision, SequenceStep,
};
use simplesync::webdav::RemoteItem;

fn target(mode: &str) -> Target {
    Target {
        id: 1,
        local_path: "/home/u/Pictures".to_string(),
        remote_path: "/Photos".to_string(),
        mode: mode.to_string(),
        last_push: None,
        created_at: String::new(),
    }
}

#[test]
fn target_rows() {
    let t = target("mirror");
    assert_eq!(target_title(&t), "Pictures");
    assert_eq!(target_subtitle(&t), "/home/u/Pictures → /Photos");
    assert_eq!(mode_label(&t), "Mirror");
    assert_eq!(mode_label(&target("upload")), "Upload");
    assert!(t.is_mirror());
    assert_eq!(mode_for(true), "mirror");
    assert_eq!(mode_for(false), "upload");
}

#[test]
fn progress_texts() {
    assert_eq!(progress_text(true, 0, 3, "sub/a.txt"), "Pushing 1/3:  a.txt");
    assert_eq!(progress_text(false, 9, 10, "b.jpg"), "Pulling 10/10:  b.jpg");
}

#[test]
fn result_messages() {
    let p = PushSummary { uploaded: 3, skipped: 2, deleted: 0, errors: vec![] };
    assert_eq!(push_result_message(&p), "Done: 3 uploaded, 2 skipped");
    let p = PushSummary { uploaded: 0, skipped: 0, deleted: 0, errors: vec!["e".into(), "f".into()] };
    assert_eq!(push_result_message(&p), "Completed with 2 error(s)");
    let q = PullSummary { downloaded: 4, skipped: 1, errors: vec![], cancelled: false };
    assert_eq!(pull_result_message(&q), "Done: 4 downloaded, 1 skipped");
    let q = PullSummary { downloaded: 4, skipped: 1, errors: vec![], cancelled: true };
    assert_eq!(pull_result_message(&q), "Pull cancelled (4 downloaded)");
    let q = PullSummary { downloaded: 0, skipped: 0, errors: vec!["x".into()], cancelled: false };
    assert_eq!(pull_result_message(&q), "Pull completed with 1 error(s)");
}

#[test]
fn sequences() {
    assert_eq!(sequence_step(false, 0, 2), SequenceStep::Run(0));
    assert_eq!(sequence_step(false, 2, 2), SequenceStep::Stop { cancelled: false });
    assert_eq!(sequence_step(true, 0, 2), SequenceStep::Stop { cancelled: true });
}

#[test]
fn browser_navigation() {
    assert!(!shows_parent_row("/"));
    assert!(!shows_parent_row(""));
    assert!(shows_parent_row("/a"));
    assert_eq!(parent_folder("/a/b"), "/a");
    assert_eq!(parent_folder("/a"), "/");
    assert_eq!(new_folder_path("/docs", "  New  "), Some("/docs/New".to_string()));
    assert_eq!(new_folder_path("/", "x"), Some("/x".to_string()));
    assert_eq!(new_folder_path("/", "   "), None);
}

fn item(name: &str, is_dir: bool) -> RemoteItem {
    RemoteItem { name: name.to_string(), is_dir, size: 0 }
}

#[test]
fn folder_entries_sort_directories_by_lowercase_name() {
    let items = vec![
        item("beta", true),
        item("file.txt", false),
        item("Alpha", true),
        item("alpha", true),
        item("Gamma", true),
    ];
    let names: Vec<String> = folder_entries(&items).into_iter().map(|i| i.name).collect();
    assert_eq!(names, vec!["Alpha", "alpha", "beta", "Gamma"]);
}

#[test]
fn login_flow() {
    assert_eq!(normalize_server_url("  https://cloud.example.com/ "), Some("https://cloud.example.com".to_string()));
    assert_eq!(normalize_server_url("   "), None);
    assert_eq!(login_init_url("https://c"), "https://c/index.php/login/v2");
    assert_eq!(poll_decision(1, Some(404)), PollDecision::Retry);
    assert_eq!(poll_decision(1, None), PollDecision::Retry);
    assert_eq!(poll_decision(5, Some(200)), PollDecision::ReadCredentials);
    assert_eq!(poll_decision(150, Some(404)), PollDecision::TimedOut);
    assert_eq!(login_error_text(LoginFailure::TimedOut, ""), "Login timed out. Please try again.");
    assert_eq!(
        login_error_text(LoginFailure::NotNextcloud, "404 Not Found"),
        "Server returned 404 Not Found. Is this a Nextcloud server?"
    );
    assert_eq!(connection_test_text(&Ok(())), "Connection successful!");
    assert_eq!(connection_test_text(&Err("HTTP error: x".to_string())), "Failed: HTTP error: x");
}

#[test]
fn sort_folders_follows_the_given_keys() {
    let items = vec![item("b", true), item("x", false), item("a", true), item("c", true)];
    let keys: Vec<String> = vec!["2".into(), "0".into(), "2".into(), "1".into()];
    let names: Vec<String> = sort_folders(&items, &keys).into_iter().map(|i| i.name).collect();
    assert_eq!(names, vec!["c", "b", "a"]);
}
