use devlog::sync::is_already_exists_error;
use devlog::sync::{
    expand_sync_dir, plan_pull, push_check, CloudFile, PushCheck, SyncConfig, SyncResult,
};
use devlog::sync::{sync_step, SyncAction, SyncEvent, SyncState};
use devlog::time::{is_before, Instant};

fn at(secs: i64) -> Instant {
    Instant { secs, nanos: 0 }
}

#[test]
fn pull_downloads_missing_and_newer_files() {
    let cloud = vec![
        CloudFile { name: "a.md".to_string(), last_modified: at(10), size: 1 },
        CloudFile { name: "b.md".to_string(), last_modified: at(10), size: 1 },
        CloudFile { name: "c.md".to_string(), last_modified: at(5), size: 1 },
    ];
    let local = vec![("b.md".to_string(), at(20)), ("c.md".to_string(), at(1))];
    assert_eq!(plan_pull(&cloud, &local), vec![true, false, true]);
}

#[test]
fn push_checks_the_remote_copy() {
    let cloud = vec![
        CloudFile { name: "a.md".to_string(), last_modified: at(10), size: 1 },
        CloudFile { name: "a.md".to_string(), last_modified: at(30), size: 1 },
    ];
    assert_eq!(push_check(&cloud, "b.md"), PushCheck::Upload);
    let check = push_check(&cloud, "a.md");
    assert_eq!(check, PushCheck::UploadIfNewerThan(at(30)));
    assert!(!check.decide(at(30)));
    assert!(check.decide(Instant { secs: 30, nanos: 1 }));
    assert!(PushCheck::Upload.decide(at(0)));
    assert!(is_before(at(1), at(2)));
}

#[test]
fn summary_lines_and_combination() {
    let push = SyncResult {
        uploaded: vec!["a.md".to_string(), "b.md".to_string()],
        downloaded: vec![],
        skipped: vec!["c.md".to_string()],
    };
    let pull = SyncResult {
        uploaded: vec![],
        downloaded: vec!["d.md".to_string()],
        skipped: vec!["e.md".to_string()],
    };
    let all = SyncResult::combine(push, pull);
    assert_eq!(
        all.summary_lines(),
        vec![
            "Uploaded: a.md, b.md".to_string(),
            "Downloaded: d.md".to_string(),
            "Skipped: 2 files (already in sync)".to_string(),
        ]
    );
    assert!(SyncResult::new().summary_lines().is_empty());
}

#[test]
fn sync_dir_and_settings() {
    assert_eq!(expand_sync_dir("~/.devlog/sync", Some("/home/u")), Some("/home/u/.devlog/sync".to_string()));
    assert_eq!(expand_sync_dir("~/x", None), None);
    assert_eq!(expand_sync_dir("/abs", None), Some("/abs".to_string()));
    let d = SyncConfig::default();
    assert_eq!(d.sync_dir_or_default(), "~/.devlog/sync");
    assert_eq!(
        d.status_lines(true),
        vec![
            "  Provider: local".to_string(),
            "  Sync directory: ~/.devlog/sync".to_string(),
            "  Remote exists: true".to_string(),
        ]
    );
    let azure = SyncConfig::for_provider("azure").unwrap();
    assert_eq!(azure.azure.unwrap().container_name, "devlog-entries");
    assert!(SyncConfig::for_provider("ftp").is_none());
}

#[test]
fn container_conflicts_are_recognised() {
    assert!(is_already_exists_error("HTTP 409 Conflict"));
    assert!(is_already_exists_error("code: ContainerAlreadyExists"));
    assert!(!is_already_exists_error("HTTP 403 Forbidden"));
}

fn result(up: &[&str], down: &[&str], skipped: &[&str]) -> SyncResult {
    let v = |xs: &[&str]| xs.iter().map(|x| x.to_string()).collect::<Vec<String>>();
    SyncResult { uploaded: v(up), downloaded: v(down), skipped: v(skipped) }
}

#[test]
fn a_sync_pushes_then_pulls_and_combines() {
    let (state, action) = sync_step(SyncState::Idle, SyncEvent::Start);
    assert!(matches!(action, SyncAction::Push));
    let (state, action) = sync_step(state, SyncEvent::PushDone(result(&["a.md"], &[], &["b.md"])));
    assert!(matches!(action, SyncAction::Pull));
    let (state, action) = sync_step(state, SyncEvent::PullDone(result(&[], &["c.md"], &["d.md"])));
    assert!(matches!(state, SyncState::Done));
    match action {
        SyncAction::Finish(r) => {
            assert_eq!(r.uploaded, vec!["a.md".to_string()]);
            assert_eq!(r.downloaded, vec!["c.md".to_string()]);
            assert_eq!(r.skipped, vec!["b.md".to_string(), "d.md".to_string()]);
        }
        other => panic!("unexpected action {:?}", other),
    }
}

#[test]
fn a_failed_push_ends_the_sync_without_a_pull() {
    let (state, _) = sync_step(SyncState::Idle, SyncEvent::Start);
    let (state, action) = sync_step(state, SyncEvent::Failed);
    assert!(matches!(state, SyncState::Done));
    assert!(matches!(action, SyncAction::Abort));
    let (_, action) = sync_step(SyncState::Pushing, SyncEvent::PullDone(result(&[], &[], &[])));
    assert!(matches!(action, SyncAction::Abort));
}
