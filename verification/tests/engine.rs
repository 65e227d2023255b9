use mega_cli::errors::SyncError;
use mega_cli::events::ChangeEvent;
use mega_cli::events::UpdatedAttributes;
use mega_cli::flatten::flatten_forest;
use mega_cli::flatten::flatten_subtree;
use mega_cli::integrity::already_synced;
use mega_cli::integrity::integrity_precheck;
use mega_cli::integrity::IntegrityPrecheck;
use mega_cli::integrity::LocalFileFacts;
use mega_cli::model::Node;
use mega_cli::model::NodeKind;
use mega_cli::model::Snapshot;
use mega_cli::model::Timestamp;
use mega_cli::scheduler::Scheduler;
use mega_cli::sync::sync_step;
use mega_cli::sync::EventAction;
use mega_cli::sync::SyncStep;

fn folder(handle: &str, name: &str, parent: Option<&str>) -> Node {
    Node {
        handle: handle.to_string(),
        name: name.to_string(),
        kind: NodeKind::Folder,
        size: 0,
        parent: parent.map(|p| p.to_string()),
        tag: None,
        key: Vec::new(),
        iv: None,
        modified_at: None,
    }
}

fn file(handle: &str, name: &str, parent: &str, size: u64, tag: Option<Vec<u8>>) -> Node {
    Node {
        handle: handle.to_string(),
        name: name.to_string(),
        kind: NodeKind::File,
        size,
        parent: Some(parent.to_string()),
        tag,
        key: vec![7u8; 16],
        iv: Some(vec![0u8; 8]),
        modified_at: Some(Timestamp { secs: 1700000000, nanos: 250 }),
    }
}

fn sample_tree() -> Snapshot {
    Snapshot {
        nodes: vec![
            folder("r", "Root", None),
            folder("d", "docs", Some("r")),
            folder("e", "empty", Some("r")),
            file("f1", "a.txt", "d", 3, Some(vec![1, 2, 3, 4, 5, 6, 7, 8])),
            file("f2", "b.txt", "d", 9, None),
            file("f3", "top.bin", "r", 4, None),
        ],
    }
}

#[test]
fn flatten_emits_every_file_once() {
    let snap = sample_tree();
    assert!(snap.check_wf());
    let root = snap.get_node_by_handle("r").unwrap();
    let jobs = flatten_subtree(&snap, root, "/out");
    assert_eq!(jobs.len(), 3);
    let mut locals: Vec<String> = jobs.iter().map(|j| j.local_path.clone()).collect();
    locals.sort();
    locals.dedup();
    assert_eq!(locals.len(), 3, "local paths must be unique");
    let mut remotes: Vec<String> = jobs.iter().map(|j| j.remote_path.clone()).collect();
    remotes.sort();
    assert_eq!(
        remotes,
        vec![
            "Root/docs/a.txt".to_string(),
            "Root/docs/b.txt".to_string(),
            "Root/top.bin".to_string(),
        ]
    );
}

#[test]
fn flatten_empty_folder_emits_nothing() {
    let snap = sample_tree();
    let empty = snap.get_node_by_handle("e").unwrap();
    let jobs = flatten_subtree(&snap, empty, "/out");
    assert_eq!(jobs.len(), 0);
}

#[test]
fn flatten_file_root_is_one_job() {
    let snap = sample_tree();
    let f = snap.get_node_by_handle("f3").unwrap();
    let jobs = flatten_subtree(&snap, f, "/out/top.bin");
    assert_eq!(jobs.len(), 1);
    assert_eq!(jobs[0].handle, "f3");
    assert_eq!(jobs[0].remote_path, "top.bin");
    assert_eq!(jobs[0].local_path, "/out/top.bin");
}

#[test]
fn flatten_skips_unresolved_children() {
    // a file pointing at a parent that is not in the snapshot is orphaned
    let snap = Snapshot {
        nodes: vec![
            folder("r", "Root", None),
            file("f1", "a.txt", "gone", 3, None),
        ],
    };
    let root = snap.get_node_by_handle("r").unwrap();
    let jobs = flatten_subtree(&snap, root, "/out");
    assert_eq!(jobs.len(), 0);
}

#[test]
fn flatten_forest_uses_absolute_paths_under_output() {
    let snap = sample_tree();
    let jobs = flatten_forest(&snap, "/backup");
    assert_eq!(jobs.len(), 3);
    let mut pairs: Vec<(String, String)> = jobs
        .iter()
        .map(|j| (j.remote_path.clone(), j.local_path.clone()))
        .collect();
    pairs.sort();
    assert_eq!(
        pairs,
        vec![
            ("/Root/docs/a.txt".to_string(), "/backup/Root/docs/a.txt".to_string()),
            ("/Root/docs/b.txt".to_string(), "/backup/Root/docs/b.txt".to_string()),
            ("/Root/top.bin".to_string(), "/backup/Root/top.bin".to_string()),
        ]
    );
}

#[test]
fn malformed_cycle_terminates_everywhere() {
    // two folders each naming the other as its parent: the fuel bounds keep
    // every walk finite
    let snap = Snapshot {
        nodes: vec![
            folder("a", "first", Some("b")),
            folder("b", "second", Some("a")),
            file("f", "leaf.txt", "a", 1, None),
        ],
    };
    assert!(snap.check_wf());
    let a = snap.get_node_by_handle("a").unwrap();
    let jobs = flatten_subtree(&snap, a, "/out");
    assert!(jobs.len() <= snap.nodes.len());
    let f = snap.get_node_by_handle("f").unwrap();
    let path = mega_cli::paths::construct_full_path(&snap, f);
    assert!(path.ends_with("leaf.txt"));
    let mut snap2 = snap;
    snap2.apply_deleted("a");
    assert!(snap2.get_node_by_handle("f").is_none());
}

#[test]
fn integrity_same_size_and_tag_is_synced() {
    let snap = sample_tree();
    let node = snap.get_node_by_handle("f1").unwrap();
    let facts = LocalFileFacts { exists: true, is_regular_file: true, byte_len: 3 };
    let tag = vec![1, 2, 3, 4, 5, 6, 7, 8];
    assert_eq!(
        integrity_precheck(node, &facts),
        IntegrityPrecheck::CompareContent { size: 3 }
    );
    assert!(already_synced(node, &facts, Some(&tag)));
}

#[test]
fn integrity_changed_tag_is_not_synced() {
    let snap = sample_tree();
    let node = snap.get_node_by_handle("f1").unwrap();
    let facts = LocalFileFacts { exists: true, is_regular_file: true, byte_len: 3 };
    let tag = vec![1, 2, 3, 4, 5, 6, 7, 9];
    assert!(!already_synced(node, &facts, Some(&tag)));
}

#[test]
fn integrity_truncated_file_skips_tag_computation() {
    let snap = sample_tree();
    let node = snap.get_node_by_handle("f1").unwrap();
    let facts = LocalFileFacts { exists: true, is_regular_file: true, byte_len: 2 };
    assert_eq!(integrity_precheck(node, &facts), IntegrityPrecheck::Transfer);
    assert!(!already_synced(node, &facts, None));
}

#[test]
fn integrity_missing_file_or_tag_forces_transfer() {
    let snap = sample_tree();
    let tagged = snap.get_node_by_handle("f1").unwrap();
    let absent = LocalFileFacts { exists: false, is_regular_file: false, byte_len: 0 };
    assert_eq!(integrity_precheck(tagged, &absent), IntegrityPrecheck::Transfer);
    let untagged = snap.get_node_by_handle("f2").unwrap();
    let present = LocalFileFacts { exists: true, is_regular_file: true, byte_len: 9 };
    assert_eq!(integrity_precheck(untagged, &present), IntegrityPrecheck::Transfer);
}

fn run_pool(total: usize, limit: usize, failing: Option<usize>) -> (usize, Scheduler) {
    let mut pool = Scheduler::new(total, limit);
    let mut max_active: usize = 0;
    let mut in_flight: Vec<usize> = Vec::new();
    while !pool.is_drained() {
        // every idle worker claims until none are idle or the queue drains
        while pool.active < pool.workers {
            match pool.claim() {
                Some(i) => in_flight.push(i),
                None => {}
            }
            if pool.active > max_active {
                max_active = pool.active;
            }
            if pool.workers == 0 {
                break;
            }
        }
        // finish the oldest in-flight job
        if let Some(i) = in_flight.first().copied() {
            in_flight.remove(0);
            if failing == Some(i) {
                pool.finish(Err(SyncError::LocalIOFailed));
            } else {
                pool.finish(Ok(()));
            }
        }
    }
    (max_active, pool)
}

#[test]
fn scheduler_respects_parallelism_one() {
    let (max_active, pool) = run_pool(10, 1, None);
    assert!(max_active <= 1);
    assert_eq!(pool.batch_result(), Ok(10));
}

#[test]
fn scheduler_respects_parallelism_four() {
    let (max_active, pool) = run_pool(20, 4, None);
    assert!(max_active <= 4);
    assert_eq!(pool.batch_result(), Ok(20));
}

#[test]
fn scheduler_respects_parallelism_sixteen() {
    let (max_active, pool) = run_pool(40, 16, None);
    assert!(max_active <= 16);
    assert_eq!(pool.batch_result(), Ok(40));
}

#[test]
fn scheduler_failed_job_kills_only_its_worker() {
    let (_, pool) = run_pool(12, 3, Some(2));
    assert_eq!(pool.batch_result(), Err(SyncError::LocalIOFailed));
    // the other workers went on: every job was claimed
    assert_eq!(pool.next, 12);
    assert_eq!(pool.completed, 11);
    assert_eq!(pool.failed, 1);
}

#[test]
fn scheduler_keeps_first_error() {
    let mut pool = Scheduler::new(2, 2);
    let a = pool.claim();
    let b = pool.claim();
    assert_eq!(a, Some(0));
    assert_eq!(b, Some(1));
    pool.finish(Err(SyncError::RemoteOperationFailed));
    pool.finish(Err(SyncError::LocalIOFailed));
    assert!(pool.is_drained());
    assert_eq!(pool.batch_result(), Err(SyncError::RemoteOperationFailed));
}

#[test]
fn deleting_absent_handle_is_noop() {
    let mut snap = sample_tree();
    let before: Vec<String> = snap.nodes.iter().map(|n| n.handle.clone()).collect();
    snap.apply_deleted("nowhere");
    let after: Vec<String> = snap.nodes.iter().map(|n| n.handle.clone()).collect();
    assert_eq!(before, after);
}

#[test]
fn deleting_a_folder_removes_its_subtree() {
    let mut snap = sample_tree();
    snap.apply_deleted("d");
    assert!(snap.get_node_by_handle("d").is_none());
    assert!(snap.get_node_by_handle("f1").is_none());
    assert!(snap.get_node_by_handle("f2").is_none());
    assert!(snap.get_node_by_handle("r").is_some());
    assert!(snap.get_node_by_handle("f3").is_some());
}

#[test]
fn update_for_unknown_handle_is_dropped() {
    let mut snap = sample_tree();
    let count = snap.nodes.len();
    snap.apply_updated(&UpdatedAttributes {
        handle: "ghost".to_string(),
        name: "renamed".to_string(),
        modified_at: None,
    });
    assert_eq!(snap.nodes.len(), count);
    assert!(snap.get_node_by_handle("ghost").is_none());
}

#[test]
fn update_for_known_handle_renames() {
    let mut snap = sample_tree();
    snap.apply_updated(&UpdatedAttributes {
        handle: "f1".to_string(),
        name: "a2.txt".to_string(),
        modified_at: Some(Timestamp { secs: 5, nanos: 6 }),
    });
    let n = snap.get_node_by_handle("f1").unwrap();
    assert_eq!(n.name, "a2.txt");
    assert_eq!(n.modified_at, Some(Timestamp { secs: 5, nanos: 6 }));
}

#[test]
fn creation_is_idempotent_for_known_handle() {
    let mut snap = sample_tree();
    let count = snap.nodes.len();
    snap.apply_created(file("f1", "a.txt", "d", 3, None));
    assert_eq!(snap.nodes.len(), count);
    let mut again = file("f1", "other.txt", "d", 3, None);
    again.name = "other.txt".to_string();
    snap.apply_created(again);
    assert_eq!(snap.nodes.len(), count);
    assert_eq!(snap.get_node_by_handle("f1").unwrap().name, "other.txt");
}

#[test]
fn created_node_joins_traversal() {
    let mut snap = sample_tree();
    snap.apply_event(&ChangeEvent::NodeCreated {
        nodes: vec![file("f4", "new.txt", "d", 5, None)],
    });
    let root_handle = "r".to_string();
    let root = snap.get_node_by_handle(&root_handle).unwrap();
    let jobs = flatten_subtree(&snap, root, "/out");
    assert_eq!(jobs.len(), 4);
    assert!(jobs.iter().any(|j| j.remote_path == "Root/docs/new.txt"));
}

#[test]
fn sync_cancellation_beats_ready_batch() {
    let mut snap = sample_tree();
    let before: Vec<String> = snap.nodes.iter().map(|n| n.name.clone()).collect();
    let batch = vec![ChangeEvent::NodeDeleted { handle: "f1".to_string() }];
    let step = sync_step(&mut snap, true, batch);
    assert!(matches!(step, SyncStep::Cancelled));
    let after: Vec<String> = snap.nodes.iter().map(|n| n.name.clone()).collect();
    assert_eq!(before, after, "a cancelled turn must not apply the batch");
    assert!(snap.get_node_by_handle("f1").is_some());
}

#[test]
fn sync_applies_batch_and_reports() {
    let mut snap = sample_tree();
    let batch = vec![
        ChangeEvent::NodeDeleted { handle: "f3".to_string() },
        ChangeEvent::NodeUpdated {
            attrs: UpdatedAttributes {
                handle: "unknown".to_string(),
                name: "x".to_string(),
                modified_at: None,
            },
        },
        ChangeEvent::NodeCreated { nodes: vec![file("f5", "c.txt", "d", 1, None)] },
    ];
    let step = sync_step(&mut snap, false, batch);
    match step {
        SyncStep::Applied { reports } => {
            // the unknown update is skipped in the report, the others shown
            assert_eq!(reports.len(), 2);
            assert_eq!(reports[0].action, EventAction::Deleted);
            assert_eq!(reports[0].name, "top.bin");
            assert_eq!(reports[1].action, EventAction::Created);
            assert_eq!(reports[1].name, "c.txt");
        }
        SyncStep::Cancelled => panic!("batch should have been applied"),
    }
    assert!(snap.get_node_by_handle("f3").is_none());
    assert!(snap.get_node_by_handle("f5").is_some());
}

#[test]
fn end_to_end_single_file_scenario() {
    // snapshot: root "Root" -> folder "docs" -> file "a.txt" (size 3, tag T)
    let tag = vec![9u8, 8, 7, 6, 5, 4, 3, 2];
    let snap = Snapshot {
        nodes: vec![
            folder("r", "Root", None),
            folder("d", "docs", Some("r")),
            file("f", "a.txt", "d", 3, Some(tag.clone())),
        ],
    };
    assert!(snap.check_wf());
    let root = snap.get_node_by_handle("r").unwrap();
    let jobs = flatten_subtree(&snap, root, "/output");
    assert_eq!(jobs.len(), 1);
    assert_eq!(jobs[0].remote_path, "Root/docs/a.txt");
    assert_eq!(jobs[0].local_path, "/output/docs/a.txt");
    // first run: nothing on disk, the transfer must happen
    let missing = LocalFileFacts { exists: false, is_regular_file: false, byte_len: 0 };
    let node = snap.get_node_by_handle(&jobs[0].handle).unwrap();
    assert_eq!(integrity_precheck(node, &missing), IntegrityPrecheck::Transfer);
    // second run: the same bytes are on disk, so the pipe is not invoked
    let present = LocalFileFacts { exists: true, is_regular_file: true, byte_len: 3 };
    assert!(already_synced(node, &present, Some(&tag)));
}
