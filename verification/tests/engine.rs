use jamoa::config::{
    load_config, load_history, AppConfig, RenameRecord, Stored, WatchedFolder, HISTORY_LIMIT,
};
use jamoa::engine::{
    attempt_of, is_in_deep_scope, is_in_scope, is_scanned, queued_paths, rebuild_watcher,
    record_millis, scan_dir, scan_total, scope_roots, Attempt, ChangeKind, EngineState, PathStep,
    ScopeRoot, WatchMode,
};
use jamoa::paths::{PathPart, PathParts};
use jamoa::rename::{Outcome, RenameError};

fn folder(path: &str, recursive: bool) -> WatchedFolder {
    WatchedFolder { path: path.to_string(), recursive }
}

fn engine(enabled: bool, folders: Vec<WatchedFolder>) -> EngineState {
    EngineState::new(AppConfig { enabled, folders }, Vec::new())
}

fn path(text: &str) -> PathParts {
    PathParts::from_text(text)
}

fn renamed() -> Attempt {
    Attempt::Renamed("/d".to_string(), "a".to_string(), "b".to_string())
}

#[test]
fn text_splits_into_components() {
    let p = path("/tmp//가/./b/../c/");
    assert_eq!(p.parts.len(), 6);
    assert!(matches!(p.parts[0], PathPart::Root));
    assert!(matches!(&p.parts[1], PathPart::Normal(b) if b == b"tmp"));
    assert!(matches!(&p.parts[2], PathPart::Normal(b) if b == "가".as_bytes()));
    assert!(matches!(&p.parts[3], PathPart::Normal(b) if b == b"b"));
    assert!(matches!(p.parts[4], PathPart::Parent));
    assert!(matches!(&p.parts[5], PathPart::Normal(b) if b == b"c"));
    assert!(matches!(path("./a").parts[0], PathPart::Current));
    assert_eq!(path("./a").parts.len(), 2);
    assert_eq!(path("a/.").parts.len(), 1);
    assert_eq!(path("").parts.len(), 0);
    assert_eq!(path("/.").parts.len(), 1);
}

#[test]
fn paths_compare_by_component() {
    assert!(path("/a/b/").same(&path("/a//b")));
    assert!(!path("/a/b").same(&path("a/b")));
    assert!(path("/a/bc").starts_with(&path("/a")));
    assert!(!path("/a/bc").starts_with(&path("/a/b")));
    assert!(path("/a").has_parent(&path("/")));
    assert!(!path("/").has_parent(&path("")));
    assert!(path("a").has_parent(&path("")));
    assert!(!path("").has_parent(&path("")));
}

#[test]
fn scope_depends_on_recursion() {
    let flat = scope_roots(&vec![folder("/home/me", false)]);
    assert!(is_in_scope(&flat, &path("/home/me/a")));
    assert!(!is_in_scope(&flat, &path("/home/me")));
    assert!(!is_in_scope(&flat, &path("/home/me/a/b")));
    assert!(!is_in_scope(&flat, &path("/home/mean")));
    assert!(!is_in_deep_scope(&flat, &path("/home/me/a")));
    let deep = scope_roots(&vec![folder("/x", false), folder("/home/me", true)]);
    assert!(is_in_scope(&deep, &path("/home/me/a/b")));
    assert!(!is_in_scope(&deep, &path("/home/me")));
    assert!(is_in_deep_scope(&deep, &path("/home/me/a/b")));
    assert!(!is_in_deep_scope(&deep, &path("/x/a")));
    assert!(!is_in_scope(&Vec::new(), &path("/x/a")));
}

#[test]
fn scope_takes_components_as_they_are() {
    let root = PathParts { parts: vec![PathPart::Prefix(b"C".to_vec()), PathPart::Root] };
    let child = PathParts {
        parts: vec![
            PathPart::Prefix(b"C".to_vec()),
            PathPart::Root,
            PathPart::Normal(vec![0xff, 0xfe]),
        ],
    };
    let other = PathParts { parts: vec![PathPart::Prefix(b"D".to_vec()), PathPart::Root] };
    let roots = vec![ScopeRoot { root, recursive: false }];
    assert!(is_in_scope(&roots, &child));
    assert!(!is_in_scope(&roots, &other));
}

#[test]
fn drives_are_told_apart() {
    let of = |drive: u8, name: &str| PathParts {
        parts: vec![
            PathPart::Drive(drive),
            PathPart::Root,
            PathPart::Normal(name.as_bytes().to_vec()),
        ],
    };
    let root = PathParts { parts: vec![PathPart::Drive(b'C'), PathPart::Root] };
    assert!(of(b'C', "a").has_parent(&root));
    assert!(!of(b'D', "a").has_parent(&root));
    assert!(of(b'C', "a").same(&of(b'C', "a")));
    assert!(!of(b'C', "a").same(&of(b'D', "a")));
    let roots = vec![ScopeRoot { root, recursive: true }];
    assert!(is_in_scope(&roots, &of(b'C', "a")));
    assert!(!is_in_scope(&roots, &of(b'D', "a")));
}

#[test]
fn disabled_engine_takes_up_nothing() {
    let e = engine(false, vec![folder("/d", true)]);
    assert!(e.take_up(path("/d/a")).is_none());
    let e = engine(true, vec![folder("/d", true)]);
    assert!(e.take_up(path("/d/a")).is_some());
    assert!(e.take_up(path("/e/a")).is_none());
}

#[test]
fn rename_is_recorded_and_scanned_below() {
    let mut e = engine(true, vec![folder("/d", true), folder("/f", false)]);
    let job = e.take_up(path("/d/a")).unwrap();
    match e.process_path_at(9, job, renamed()) {
        PathStep::Recorded(r, deep) => {
            assert_eq!((r.at, r.dir.as_str()), (9, "/d"));
            assert_eq!((r.from.as_str(), r.to.as_str()), ("a", "b"));
            assert!(deep);
        }
        _ => panic!("not recorded"),
    }
    let job = e.take_up(path("/f/a")).unwrap();
    assert!(matches!(e.process_path(job, renamed()), PathStep::Recorded(_, false)));
    assert_eq!(e.get_history().len(), 2);
    assert!(e.history[0].at > 9);
    let job = e.take_up(path("/f/a")).unwrap();
    assert!(matches!(e.process_path(job, Attempt::Unchanged), PathStep::Stop));
    assert_eq!(e.get_history().len(), 2);
}

#[test]
fn failing_path_is_tried_three_times_and_remembered() {
    let mut e = engine(true, vec![folder("/d", false)]);
    let mut job = e.take_up(path("/d/a")).unwrap();
    let mut attempts = 0;
    loop {
        attempts += 1;
        match e.process_path(job, Attempt::Failed) {
            PathStep::Retry(again) => job = again,
            PathStep::Stop => break,
            PathStep::Recorded(_, _) => panic!("recorded"),
        }
    }
    assert_eq!(attempts, 3);
    assert!(e.has_failed(&path("/d/a")));
    assert!(e.take_up(path("/d/a/")).is_none());
    assert!(e.take_up(path("/d/b")).is_some());
    assert_eq!(e.scan_all().len(), 1);
    assert!(e.take_up(path("/d/a")).is_some());
}

#[test]
fn every_failure_is_remembered() {
    let mut e = engine(true, vec![folder("/d", false)]);
    for i in 0..201 {
        let mut job = e.take_up(path(&format!("/d/{i}"))).unwrap();
        job.attempt = 2;
        assert!(matches!(e.process_path(job, Attempt::Failed), PathStep::Stop));
    }
    for i in 0..201 {
        assert!(e.take_up(path(&format!("/d/{i}"))).is_none());
    }
    assert!(e.take_up(path("/d/201")).is_some());
    e.scan_all();
    assert!(e.take_up(path("/d/200")).is_some());
}

#[test]
fn history_keeps_the_latest() {
    let mut e = engine(true, Vec::new());
    for i in 0..305u64 {
        let r = e.record_rename_at(i, "d".to_string(), format!("f{i}"), "t".to_string());
        assert_eq!(r.at, i);
    }
    let history = e.get_history();
    assert_eq!(history.len(), HISTORY_LIMIT);
    assert_eq!(history[0].at, 304);
    assert_eq!(history[299].at, 5);
    assert_eq!(history[1].from, "f303");
    let r = e.record_rename("d".to_string(), "x".to_string(), "y".to_string());
    assert!(r.at > 1_600_000_000_000);
    assert_eq!(e.history[0].to, "y");
}

#[test]
fn record_time_is_cut_to_its_field() {
    assert_eq!(record_millis(None), 0);
    assert_eq!(record_millis(Some(1_700_000_000_123)), 1_700_000_000_123);
    assert_eq!(record_millis(Some((1u128 << 64) + 5)), 5);
}

#[test]
fn outcomes_become_attempts() {
    let done: Outcome<u8> = Ok(Some(("a".to_string(), "b".to_string())));
    assert!(matches!(attempt_of("d".to_string(), done),
        Attempt::Renamed(d, a, b) if d == "d" && a == "a" && b == "b"));
    let nothing: Outcome<u8> = Ok(None);
    assert!(matches!(attempt_of("d".to_string(), nothing), Attempt::Unchanged));
    let failed: Outcome<u8> = Err(RenameError::NotPreserved);
    assert!(matches!(attempt_of("d".to_string(), failed), Attempt::Failed));
    let taken: Outcome<u8> = Err(RenameError::NoFreeName);
    assert!(matches!(attempt_of("d".to_string(), taken), Attempt::Failed));
}

#[test]
fn scan_counts_renames() {
    let mut e = engine(false, Vec::new());
    let mut count = 0;
    for attempt in [Attempt::Unchanged, renamed(), Attempt::Failed, renamed()] {
        let (n, record) = e.scan_entry(count, attempt);
        assert_eq!(record.is_some(), n == count + 1);
        count = n;
    }
    assert_eq!(count, 2);
    assert_eq!(e.history.len(), 2);
    let (n, record) = e.scan_entry_at(5, 7, renamed());
    assert_eq!((n, record.unwrap().at), (8, 5));
    assert_eq!(scan_total(&vec![2, 0, 40]), 42);
    assert_eq!(scan_total(&Vec::new()), 0);
}

#[test]
fn scan_walks_contents_first() {
    let flat = scan_dir(false);
    assert_eq!((flat.min_depth, flat.max_depth, flat.contents_first), (1, 1, true));
    let deep = scan_dir(true);
    assert_eq!((deep.min_depth, deep.max_depth, deep.contents_first), (1, usize::MAX, true));
    assert!(is_scanned(Some("a")));
    assert!(is_scanned(Some("")));
    assert!(!is_scanned(Some(".git")));
    assert!(!is_scanned(None));
}

#[test]
fn watcher_follows_the_folders() {
    let plan = rebuild_watcher(&vec![folder("/a", true), folder("/b", false)]);
    assert_eq!(plan.len(), 2);
    assert_eq!((plan[0].path.as_str(), plan[0].mode), ("/a", WatchMode::Recursive));
    assert_eq!((plan[1].path.as_str(), plan[1].mode), ("/b", WatchMode::NonRecursive));
    assert!(rebuild_watcher(&Vec::new()).is_empty());
}

#[test]
fn only_naming_changes_are_queued() {
    for kind in [ChangeKind::Any, ChangeKind::Create, ChangeKind::Modify] {
        assert_eq!(queued_paths(kind, vec![1, 2]), vec![1, 2]);
    }
    for kind in [ChangeKind::Access, ChangeKind::Remove, ChangeKind::Other] {
        assert!(queued_paths(kind, vec![1, 2]).is_empty());
    }
}

#[test]
fn first_run_watches_downloads() {
    let (config, save) = load_config(Stored::Missing, Some("/dl".to_string()));
    assert!(save && !config.enabled);
    assert_eq!(config.folders, vec![folder("/dl", false)]);
    let (config, save) = load_config(Stored::Missing, None);
    assert!(save && config.folders.is_empty());
    let (config, save) = load_config(Stored::Malformed, Some("/dl".to_string()));
    assert!(!save && !config.enabled && config.folders.is_empty());
    let kept = AppConfig { enabled: true, folders: vec![folder("/k", true)] };
    let (config, save) = load_config(Stored::Parsed(kept), Some("/dl".to_string()));
    assert!(!save && config.enabled);
    assert_eq!(config.folders, vec![folder("/k", true)]);
    assert!(!AppConfig::default().enabled);
}

#[test]
fn unreadable_history_is_empty() {
    let record = RenameRecord {
        at: 1,
        dir: "d".to_string(),
        from: "f".to_string(),
        to: "t".to_string(),
    };
    assert_eq!(load_history(Stored::Parsed(vec![record])).len(), 1);
    assert!(load_history(Stored::Malformed).is_empty());
    assert!(load_history(Stored::Missing).is_empty());
}
