use mega_cli::commands::auth;
use mega_cli::commands::config as config_cmd;
use mega_cli::commands::get;
use mega_cli::commands::mkdir;
use mega_cli::commands::put;
use mega_cli::commands::tree;
use mega_cli::commands::Command;
use mega_cli::config::effective_settings;
use mega_cli::config::session_to_resume;
use mega_cli::config::AuthConfig;
use mega_cli::config::ClientOverrides;
use mega_cli::config::ClientSettings;
use mega_cli::duration::display_parts;
use mega_cli::duration::duration_from_millis;
use mega_cli::duration::parse_duration;
use mega_cli::duration::DurationUnit;
use mega_cli::duration::TimeSpan;
use mega_cli::errors::SyncError;
use mega_cli::events::ChangeEvent;
use mega_cli::model::Node;
use mega_cli::model::NodeKind;
use mega_cli::model::Snapshot;
use mega_cli::paths::construct_full_path;
use mega_cli::paths::construct_relative_path;
use mega_cli::resolve::resolve_reference;
use mega_cli::resolve::split_segments;
use mega_cli::terminal::generate_template;
use mega_cli::terminal::spinner_frames;
use mega_cli::utils::is_public_link;

fn plain_node(handle: &str, name: &str, kind: NodeKind, parent: Option<&str>) -> Node {
    Node {
        handle: handle.to_string(),
        name: name.to_string(),
        kind,
        size: 0,
        parent: parent.map(|p| p.to_string()),
        tag: None,
        key: Vec::new(),
        iv: None,
        modified_at: None,
    }
}

fn small_tree() -> Snapshot {
    Snapshot {
        nodes: vec![
            plain_node("r", "Root", NodeKind::Folder, None),
            plain_node("d", "docs", NodeKind::Folder, Some("r")),
            plain_node("f", "a.txt", NodeKind::File, Some("d")),
        ],
    }
}

#[test]
fn resolves_by_path() {
    let snap = small_tree();
    let n = resolve_reference(&snap, "/Root/docs/a.txt").unwrap();
    assert_eq!(n.handle, "f");
    let d = resolve_reference(&snap, "Root/docs").unwrap();
    assert_eq!(d.handle, "d");
    let r = resolve_reference(&snap, "/Root").unwrap();
    assert_eq!(r.handle, "r");
}

#[test]
fn resolves_by_handle() {
    let snap = small_tree();
    let n = resolve_reference(&snap, "H:d").unwrap();
    assert_eq!(n.name, "docs");
}

#[test]
fn resolution_misses_are_not_found() {
    let snap = small_tree();
    assert_eq!(
        resolve_reference(&snap, "/Root/docs/missing.txt").unwrap_err(),
        SyncError::NotFound
    );
    assert_eq!(resolve_reference(&snap, "H:zz").unwrap_err(), SyncError::NotFound);
    assert_eq!(resolve_reference(&snap, "/Wrong").unwrap_err(), SyncError::NotFound);
}

#[test]
fn path_resolution_is_case_sensitive() {
    let snap = small_tree();
    assert_eq!(resolve_reference(&snap, "/root").unwrap_err(), SyncError::NotFound);
}

#[test]
fn splits_paths_into_segments() {
    let segs = split_segments("Root/docs/a.txt");
    assert_eq!(segs, vec!["Root", "docs", "a.txt"]);
    let with_empty = split_segments("Root//x");
    assert_eq!(with_empty, vec!["Root", "", "x"]);
    assert_eq!(split_segments(""), vec![""]);
}

#[test]
fn constructs_full_and_relative_paths() {
    let snap = small_tree();
    let f = snap.get_node_by_handle("f").unwrap();
    assert_eq!(construct_full_path(&snap, f), "/Root/docs/a.txt");
    let r = snap.get_node_by_handle("r").unwrap();
    assert_eq!(construct_relative_path(&snap, r, f), "Root/docs/a.txt");
    let d = snap.get_node_by_handle("d").unwrap();
    assert_eq!(construct_relative_path(&snap, d, f), "docs/a.txt");
}

#[test]
fn parses_durations_in_every_unit() {
    assert_eq!(parse_duration("5 s"), Ok(TimeSpan { nanos: 5_000_000_000 }));
    assert_eq!(parse_duration("10ms"), Ok(TimeSpan { nanos: 10_000_000 }));
    assert_eq!(parse_duration(" 7 \u{00B5}s "), Ok(TimeSpan { nanos: 7_000 }));
    assert_eq!(parse_duration("250ns"), Ok(TimeSpan { nanos: 250 }));
    assert_eq!(parse_duration("3 min"), Ok(TimeSpan { nanos: 180_000_000_000 }));
    assert_eq!(parse_duration("2h"), Ok(TimeSpan { nanos: 7_200_000_000_000 }));
}

#[test]
fn rejects_malformed_durations() {
    assert!(parse_duration("").is_err());
    assert!(parse_duration("s").is_err());
    assert!(parse_duration("5 parsecs").is_err());
    assert!(parse_duration("12").is_err());
    assert!(parse_duration("-4 s").is_err());
    assert!(parse_duration("99999999999999999999999 s").is_err());
}

#[test]
fn converts_milliseconds() {
    assert_eq!(duration_from_millis(250).nanos, 250_000_000);
}

#[test]
fn displays_durations_in_the_largest_unit() {
    assert_eq!(display_parts(TimeSpan { nanos: 5_000_000_000 }), (5, DurationUnit::Seconds));
    assert_eq!(
        display_parts(TimeSpan { nanos: 7_200_000_000_000 }),
        (2, DurationUnit::Hours)
    );
    assert_eq!(display_parts(TimeSpan { nanos: 90_000_000_000 }), (1, DurationUnit::Minutes));
    assert_eq!(display_parts(TimeSpan { nanos: 999 }), (999, DurationUnit::Nanos));
    assert_eq!(display_parts(TimeSpan { nanos: 0 }), (0, DurationUnit::Nanos));
    assert_eq!(DurationUnit::Seconds.label(), "s");
}

#[test]
fn detects_public_links() {
    assert!(is_public_link("https://example.invalid/share/abc"));
    assert!(!is_public_link("H:abc"));
    assert!(!is_public_link("/Root/docs"));
    assert!(!is_public_link("http"));
}

#[test]
fn session_commands_report_their_needs() {
    let get_anon = Command::Get(get::Opts {
        output: None,
        all: false,
        link: Some("https://example.invalid/x".to_string()),
        password: None,
        parallel: 4,
        path: None,
    });
    assert!(!get_anon.may_need_user_session());
    let get_own = Command::Get(get::Opts {
        output: None,
        all: true,
        link: None,
        password: None,
        parallel: 4,
        path: None,
    });
    assert!(get_own.may_need_user_session());
    let auth_cmd = Command::Auth(auth::Command::Login(auth::LoginOpts {}));
    assert!(auth_cmd.may_need_user_session());
    let config_path = Command::Config(config_cmd::Command::Path(config_cmd::PathOpts {}));
    assert!(!config_path.may_need_user_session());
}

#[test]
fn fetch_plan_follows_share_arguments() {
    assert!(matches!(get::fetch_plan(&None, &None), Ok(get::FetchPlan::OwnAccount)));
    let l = Some("link".to_string());
    let p = Some("pw".to_string());
    match get::fetch_plan(&l, &None) {
        Ok(get::FetchPlan::PublicLink { link }) => assert_eq!(link, "link"),
        other => panic!("unexpected plan: {:?}", other),
    }
    match get::fetch_plan(&l, &p) {
        Ok(get::FetchPlan::ProtectedLink { link, password }) => {
            assert_eq!(link, "link");
            assert_eq!(password, "pw");
        }
        other => panic!("unexpected plan: {:?}", other),
    }
    assert_eq!(get::fetch_plan(&None, &p).unwrap_err(), SyncError::NotFound);
}

#[test]
fn target_plan_checks_the_arguments() {
    let mut opts = get::Opts {
        output: None,
        all: true,
        link: None,
        password: None,
        parallel: 4,
        path: None,
    };
    assert!(matches!(get::target_plan(&opts), Ok(get::GetTarget::All)));
    opts.path = Some("/Root".to_string());
    assert_eq!(get::target_plan(&opts).unwrap_err(), SyncError::NotFound);
    opts.all = false;
    match get::target_plan(&opts) {
        Ok(get::GetTarget::Single { reference }) => assert_eq!(reference, "/Root"),
        other => panic!("unexpected target: {:?}", other),
    }
    opts.path = None;
    assert_eq!(get::target_plan(&opts).unwrap_err(), SyncError::NotFound);
}

#[test]
fn output_defaults_to_node_name() {
    assert_eq!(get::effective_output(&None, "a.txt"), "./a.txt");
    assert_eq!(get::effective_output(&Some("/tmp/x".to_string()), "a.txt"), "/tmp/x");
    assert_eq!(get::output_for_all(&None).unwrap_err(), SyncError::NotFound);
    assert_eq!(get::output_for_all(&Some("/tmp".to_string())).unwrap(), "/tmp");
}

#[test]
fn mkdir_steps_walk_outermost_first() {
    let steps = mkdir::mkdir_steps("/a/b/c");
    let pairs: Vec<(String, String)> =
        steps.iter().map(|s| (s.parent.clone(), s.name.clone())).collect();
    assert_eq!(
        pairs,
        vec![("/a".to_string(), "b".to_string()), ("/a/b".to_string(), "c".to_string())]
    );
    let rel = mkdir::mkdir_steps("a/b");
    assert_eq!(rel.len(), 1);
    assert_eq!(rel[0].parent, "a");
    assert_eq!(rel[0].name, "b");
    assert_eq!(mkdir::mkdir_steps("abc").len(), 0);
    assert_eq!(mkdir::mkdir_steps("/a/b/").len(), 1);
}

#[test]
fn creation_acknowledgement_scans_batches() {
    let created = ChangeEvent::NodeCreated {
        nodes: vec![plain_node("n1", "sub", NodeKind::Folder, Some("p1"))],
    };
    let unrelated = ChangeEvent::NodeDeleted { handle: "zz".to_string() };
    let events = vec![unrelated, created];
    assert!(mkdir::creation_acknowledged(&events, "sub", "p1"));
    assert!(!mkdir::creation_acknowledged(&events, "sub", "p2"));
    assert!(!mkdir::creation_acknowledged(&events, "other", "p1"));
}

#[test]
fn upload_path_splits_at_the_last_separator() {
    let pair = put::split_upload_path("/Root/folder/file.txt").unwrap();
    assert_eq!(pair.parent, "/Root/folder");
    assert_eq!(pair.name, "file.txt");
    let trailing = put::split_upload_path("/Root/folder/").unwrap();
    assert_eq!(trailing.parent, "/Root/folder");
    assert_eq!(trailing.name, "");
    assert!(put::split_upload_path("plain").is_none());
    assert_eq!(put::effective_upload_name("", "local.bin"), "local.bin");
    assert_eq!(put::effective_upload_name("given.bin", "local.bin"), "given.bin");
}

#[test]
fn display_order_puts_folders_first_alphabetically() {
    let snap = Snapshot {
        nodes: vec![
            plain_node("r", "Root", NodeKind::Folder, None),
            plain_node("f1", "zeta.txt", NodeKind::File, Some("r")),
            plain_node("d1", "beta", NodeKind::Folder, Some("r")),
            plain_node("f2", "alpha.txt", NodeKind::File, Some("r")),
            plain_node("d2", "alpha", NodeKind::Folder, Some("r")),
        ],
    };
    let children = snap.children_of("r");
    let ordered = mega_cli::commands::list::presentation_order(&snap, &children);
    let names: Vec<&str> = ordered
        .iter()
        .map(|&i| snap.nodes[i].name.as_str())
        .collect();
    assert_eq!(names, vec!["alpha", "beta", "alpha.txt", "zeta.txt"]);
}

#[test]
fn node_labels_show_kind_and_handle() {
    let snap = small_tree();
    let d = snap.get_node_by_handle("d").unwrap();
    let f = snap.get_node_by_handle("f").unwrap();
    assert_eq!(tree::format_node_label(d, false), "docs/");
    assert_eq!(tree::format_node_label(d, true), "(H:d) docs/");
    assert_eq!(tree::format_node_label(f, false), "a.txt");
    assert_eq!(tree::format_node_label(f, true), "(H:f) a.txt");
}

#[test]
fn settings_overrides_win() {
    let base = ClientSettings::default();
    assert_eq!(base.max_retries, 10);
    assert_eq!(base.origin, "https://g.api.mega.co.nz/");
    let merged = effective_settings(
        ClientOverrides {
            origin: Some("https://alt.invalid/".to_string()),
            max_retries: None,
            min_retry_delay: None,
            max_retry_delay: Some(TimeSpan { nanos: 1 }),
            timeout: None,
            https: Some(true),
        },
        base,
    );
    assert_eq!(merged.origin, "https://alt.invalid/");
    assert_eq!(merged.max_retries, 10);
    assert_eq!(merged.max_retry_delay, TimeSpan { nanos: 1 });
    assert_eq!(merged.timeout, Some(TimeSpan { nanos: 10_000_000_000 }));
    assert!(merged.https);
}

#[test]
fn anonymous_runs_resume_nothing() {
    let auth_cfg = AuthConfig { session: Some("blob".to_string()) };
    assert!(session_to_resume(true, &auth_cfg).is_none());
    assert_eq!(session_to_resume(false, &auth_cfg).unwrap(), "blob");
    let empty = AuthConfig::default();
    assert!(session_to_resume(false, &empty).is_none());
}

#[test]
fn template_slides_the_window_across() {
    let frames = generate_template(3, 2, "x", "o");
    assert_eq!(frames, vec!["ooo", "xoo", "xxo", "oxx", "oox", "ooo"]);
}

#[test]
fn spinner_bounces_back() {
    let frames = spinner_frames(3, 2, "x", "o");
    assert_eq!(frames.len(), 12);
    assert_eq!(&frames[..6], &["ooo", "xoo", "xxo", "oxx", "oox", "ooo"]);
    assert_eq!(&frames[6..], &["ooo", "oox", "oxx", "xxo", "xoo", "ooo"]);
}

#[test]
fn errors_describe_themselves() {
    assert_eq!(SyncError::NotFound.message(), "could not find node");
    assert_eq!(SyncError::CastOverflow.message(), "numeric conversion overflowed");
    assert_eq!(
        parse_duration("nope").unwrap_err().message(),
        "error parsing duration"
    );
}
