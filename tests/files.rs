use setup_center::envfile::{
    api_port_or_default, launch_env, read_env_kv, read_workspace_api_port, split_lines, EnvPair,
    DEFAULT_API_PORT,
};
use setup_center::identity::RecordProbe;
use setup_center::layout::{
    embedded_python_root, is_lock_marker_name, lock_file_name_of, openakita_root_dir, path_join,
    pid_file_name_of, root_dir_from_home, run_dir, runtime_dir, service_lock_file,
    service_pid_file, state_file_path, venv_python_path, venv_pythonw_path, workspace_dir,
    workspace_of_pid_file, workspaces_dir, Arch, Os,
};
use setup_center::reconcile::{
    alive_found, auto_stop_entries, list_service_pids, orphans_to_stop, reconcile_removals,
    registry_stopped, EntryStop, RegistryEntry, RunDirFile,
    ServicePidEntry,
};
use setup_center::record::{ServiceRecord, StartedBy};
use setup_center::runtime::{
    pick_python_build_asset, safe_extract_path, target_triple_hint, workspace_file_path, GhAsset,
    UnsupportedPlatform, WorkspacePathError,
};
use setup_center::supervisor::{start_begin, start_step, HandleState, StartAction, StartEvent};

fn pairs(v: &[EnvPair]) -> Vec<(String, String)> {
    v.iter()
        .map(|p| (String::from_utf8(p.key.clone()).unwrap(), String::from_utf8(p.value.clone()).unwrap()))
        .collect()
}

#[test]
fn data_root_and_run_dir_layout() {
    assert_eq!(root_dir_from_home(Some("/home/ann")), "/home/ann/.openakita");
    assert_eq!(root_dir_from_home(Some("/home/ann/")), "/home/ann/.openakita");
    assert_eq!(root_dir_from_home(None), "./.openakita");
    assert!(openakita_root_dir().ends_with(".openakita"));
    let root = "/r";
    assert_eq!(run_dir(root), "/r/run");
    assert_eq!(state_file_path(root), "/r/state.json");
    assert_eq!(workspaces_dir(root), "/r/workspaces");
    assert_eq!(workspace_dir(root, "w1"), "/r/workspaces/w1");
    assert_eq!(runtime_dir(root), "/r/runtime");
    assert_eq!(embedded_python_root(root), "/r/runtime/python");
    assert_eq!(service_pid_file(root, "w1"), "/r/run/openakita-w1.pid");
    assert_eq!(service_lock_file(root, "w1"), "/r/run/openakita-w1.lock");
    assert_eq!(path_join("", "x"), "x");
    assert_eq!(path_join("a\\", "x"), "a\\x");
}

#[test]
fn registry_file_names() {
    assert_eq!(pid_file_name_of("default"), "openakita-default.pid");
    assert_eq!(lock_file_name_of("default"), "openakita-default.lock");
    assert_eq!(workspace_of_pid_file("openakita-default.pid"), Some("default".to_string()));
    assert_eq!(workspace_of_pid_file("openakita-.pid"), None);
    assert_eq!(workspace_of_pid_file("openakita-a.lock"), None);
    assert_eq!(workspace_of_pid_file("other-a.pid"), None);
    assert!(is_lock_marker_name("openakita-a.lock"));
    assert!(is_lock_marker_name("x.lock"));
    assert!(!is_lock_marker_name(".lock"));
    assert!(!is_lock_marker_name("a.pid"));
}

#[test]
fn venv_interpreters() {
    assert_eq!(venv_python_path("/v", Os::Linux), "/v/bin/python");
    assert_eq!(venv_python_path("C:\\v", Os::Windows), "C:\\v/Scripts/python.exe");
    assert_eq!(venv_pythonw_path("/v", Os::Windows, true), "/v/Scripts/pythonw.exe");
    assert_eq!(venv_pythonw_path("/v", Os::Windows, false), "/v/Scripts/python.exe");
    assert_eq!(venv_pythonw_path("/v", Os::MacOs, true), "/v/bin/python");
}

fn file(name: &str, content: &[u8]) -> RunDirFile {
    RunDirFile { name: name.to_string(), content: content.to_vec() }
}

#[test]
fn reconciliation_clears_stale_lock_and_dead_record() {
    let names = vec![
        "openakita-ws.lock".to_string(),
        "openakita-ws.pid".to_string(),
        "notes.txt".to_string(),
    ];
    let entries = vec![RegistryEntry {
        workspace_id: "ws".to_string(),
        probe: RecordProbe {
            record: ServiceRecord { pid: 4821, started_by: StartedBy::Supervisor, started_at: 0 },
            alive: false,
            creation_time: None,
        },
    }];
    let removed = reconcile_removals(&names, &entries);
    assert_eq!(removed, vec!["openakita-ws.lock".to_string(), "openakita-ws.pid".to_string()]);
    // the next start finds nothing, takes the free lock and spawns
    let mut lock_present = names.iter().any(|n| n == "openakita-ws.lock");
    if removed.iter().any(|n| n == "openakita-ws.lock") {
        lock_present = false;
    }
    let (p, _) = start_begin();
    let (p, _) = start_step(p, StartEvent::Handle(HandleState::Absent));
    let (p, a) = start_step(p, StartEvent::Record(None));
    assert_eq!(a, StartAction::AcquireLock);
    let (p, a) = start_step(p, StartEvent::Lock(!lock_present));
    assert_eq!(a, StartAction::Recheck);
    let (_, a) = start_step(p, StartEvent::Rechecked { handle: HandleState::Absent, probe: None });
    assert_eq!(a, StartAction::Spawn);
}

#[test]
fn reconciliation_keeps_live_records() {
    let entries = vec![RegistryEntry {
        workspace_id: "ws".to_string(),
        probe: RecordProbe {
            record: ServiceRecord { pid: 10, started_by: StartedBy::Supervisor, started_at: 100 },
            alive: true,
            creation_time: Some(102),
        },
    }];
    assert!(reconcile_removals(&vec![], &entries).is_empty());
}

#[test]
fn registry_listing() {
    let files = vec![
        file("openakita-a.pid", b"{\"pid\": 5, \"started_by\": \"external\", \"started_at\": 9}"),
        file("openakita-b.pid", b"77\n"),
        file("openakita-c.pid", b"garbage"),
        file("openakita-d.lock", b""),
    ];
    let list = list_service_pids(&files);
    let got: Vec<(String, ServiceRecord)> = list.iter().map(|e| (e.workspace_id.clone(), e.record)).collect();
    assert_eq!(
        got,
        vec![
            ("a".to_string(), ServiceRecord { pid: 5, started_by: StartedBy::External, started_at: 9 }),
            ("b".to_string(), ServiceRecord { pid: 77, started_by: StartedBy::Supervisor, started_at: 0 }),
        ]
    );
    assert!(list_service_pids(&vec![]).is_empty());
    let own: Vec<ServicePidEntry> = auto_stop_entries(&list);
    assert_eq!(own.len(), 1);
    assert_eq!(own[0].workspace_id, "b");
}

#[test]
fn env_file_pairs() {
    let text = b"# comment\nA=1\n  B = two words  \r\n=nokey\nnovalue\nC==x\n\n";
    let got = pairs(&read_env_kv(text));
    assert_eq!(
        got,
        vec![
            ("A".to_string(), "1".to_string()),
            ("B".to_string(), " two words".to_string()),
            ("C".to_string(), "=x".to_string()),
        ]
    );
    assert!(read_env_kv(b"").is_empty());
}

#[test]
fn env_lines_split_like_str_lines() {
    assert_eq!(split_lines(b"a\nb"), vec![(0, 1), (2, 3)]);
    assert_eq!(split_lines(b"a\n"), vec![(0, 1)]);
    assert_eq!(split_lines(b"\n"), vec![(0, 0)]);
    assert!(split_lines(b"").is_empty());
}

#[test]
fn api_port_from_env() {
    assert_eq!(read_workspace_api_port(b"X=1\n API_PORT= 19000 \n"), Some(19000));
    assert_eq!(read_workspace_api_port(b"API_PORT=abc\nAPI_PORT=19000\n"), None);
    assert_eq!(read_workspace_api_port(b"API_PORT=70000\n"), None);
    assert_eq!(api_port_or_default(b"# nothing\n"), DEFAULT_API_PORT);
    assert_eq!(DEFAULT_API_PORT, 18900);
}

#[test]
fn launch_environment_overlay() {
    let ws = vec![EnvPair { key: b"NO_COLOR".to_vec(), value: b"0".to_vec() }];
    let got = pairs(&launch_env(ws));
    assert_eq!(
        got,
        vec![
            ("PYTHONUTF8".to_string(), "1".to_string()),
            ("PYTHONIOENCODING".to_string(), "utf-8".to_string()),
            ("PYTHONUNBUFFERED".to_string(), "1".to_string()),
            ("NO_COLOR".to_string(), "1".to_string()),
            ("NO_COLOR".to_string(), "0".to_string()),
        ]
    );
}

#[test]
fn target_triples() {
    assert_eq!(target_triple_hint(Os::Windows, Arch::X86_64), Ok("x86_64-pc-windows-msvc"));
    assert_eq!(target_triple_hint(Os::MacOs, Arch::Aarch64), Ok("aarch64-apple-darwin"));
    assert_eq!(target_triple_hint(Os::Linux, Arch::Aarch64), Ok("aarch64-unknown-linux-gnu"));
    assert_eq!(
        target_triple_hint(Os::Linux, Arch::Other),
        Err(UnsupportedPlatform { os: Os::Linux })
    );
}

fn asset(name: &str) -> GhAsset {
    GhAsset { name: name.to_string(), browser_download_url: format!("https://example.invalid/{name}") }
}

#[test]
fn picks_stripped_build_of_platform_archive_kind() {
    let t = "x86_64-unknown-linux-gnu";
    let assets = vec![
        asset("cpython-3.11.9+20240726-x86_64-unknown-linux-gnu-install_only.tar.gz"),
        asset("cpython-3.11.9+20240726-x86_64-unknown-linux-gnu-install_only_stripped.zip"),
        asset("cpython-3.11.9+20240726-x86_64-unknown-linux-gnu-install_only_stripped.tar.gz"),
        asset("cpython-3.12.4+20240726-x86_64-unknown-linux-gnu-install_only_stripped.tar.gz"),
        asset("cpython-3.11.9+20240726-x86_64-unknown-linux-gnu-debug-full.tar.zst"),
    ];
    let got = pick_python_build_asset(&assets, "3.11", t, Os::Linux).unwrap();
    assert_eq!(got.name, "cpython-3.11.9+20240726-x86_64-unknown-linux-gnu-install_only_stripped.tar.gz");
    assert_eq!(got.browser_download_url, assets[2].browser_download_url);
    let win = pick_python_build_asset(&assets, "3.11", t, Os::Windows).unwrap();
    assert_eq!(win.name, "cpython-3.11.9+20240726-x86_64-unknown-linux-gnu-install_only_stripped.zip");
    assert!(pick_python_build_asset(&assets, "3.10", t, Os::Linux).is_none());
    assert!(pick_python_build_asset(&vec![], "3.11", t, Os::Linux).is_none());
}

#[test]
fn picks_lowest_name_among_equal_ranks() {
    let t = "aarch64-apple-darwin";
    let assets = vec![
        asset("cpython-3.11.10+b-aarch64-apple-darwin-install_only.tar.gz"),
        asset("cpython-3.11.9+a-aarch64-apple-darwin-install_only.tar.gz"),
        asset("cpython-3.11.10+b-aarch64-apple-darwin-install_only.tar.gz"),
    ];
    let got = pick_python_build_asset(&assets, "3.11", t, Os::MacOs).unwrap();
    assert_eq!(got.name, "cpython-3.11.10+b-aarch64-apple-darwin-install_only.tar.gz");
}

#[test]
fn extraction_paths() {
    let l = Os::Linux;
    assert_eq!(safe_extract_path("/out", "python/bin/python3", l), Some("/out/python/bin/python3".to_string()));
    assert_eq!(safe_extract_path("/out", "/etc/passwd", l), None);
    assert_eq!(safe_extract_path("/out", "a/../../b", l), None);
    assert_eq!(safe_extract_path("/out", "a..b", l), None);
    // drive letters and backslashes are plain name characters outside Windows
    assert_eq!(safe_extract_path("/out", "C:x", l), Some("/out/C:x".to_string()));
    assert_eq!(safe_extract_path("/out", "\\x", Os::MacOs), Some("/out/\\x".to_string()));
    // on Windows they leave the base
    assert_eq!(safe_extract_path("/out", "C:evil", Os::Windows), None);
    assert_eq!(safe_extract_path("/out", "\\evil", Os::Windows), None);
}

#[test]
fn workspace_files() {
    let l = Os::Linux;
    assert_eq!(workspace_file_path("/r", "w", "data/x.json", l), Ok("/r/workspaces/w/data/x.json".to_string()));
    assert_eq!(workspace_file_path("/r", "w", "/etc/x", l), Err(WorkspacePathError::Absolute));
    assert_eq!(workspace_file_path("/r", "w", "a/../b", l), Err(WorkspacePathError::ParentDir));
    assert_eq!(workspace_file_path("/r", "w", "..", l), Err(WorkspacePathError::ParentDir));
    assert_eq!(workspace_file_path("/r", "w", "foo/..bar", l), Ok("/r/workspaces/w/foo/..bar".to_string()));
    assert_eq!(workspace_file_path("/r", "w", "C:notes", l), Ok("/r/workspaces/w/C:notes".to_string()));
    assert_eq!(workspace_file_path("/r", "w", "a\\..\\b", l), Ok("/r/workspaces/w/a\\..\\b".to_string()));
    let w = Os::Windows;
    assert_eq!(workspace_file_path("/r", "w", "C:notes", w), Err(WorkspacePathError::Absolute));
    assert_eq!(workspace_file_path("/r", "w", "\\x", w), Err(WorkspacePathError::Absolute));
    assert_eq!(workspace_file_path("/r", "w", "a\\..\\b", w), Err(WorkspacePathError::ParentDir));
    assert_eq!(workspace_file_path("/r", "w", "a\\b", w), Ok("/r/workspaces/w/a\\b".to_string()));
}

fn entry(k: &str, v: &str) -> setup_center::envfile::EnvEntry {
    setup_center::envfile::EnvEntry { key: k.as_bytes().to_vec(), value: v.as_bytes().to_vec() }
}

fn rewrite(existing: &str, entries: Vec<setup_center::envfile::EnvEntry>) -> String {
    String::from_utf8(setup_center::envfile::update_env_content(existing.as_bytes(), &entries)).unwrap()
}

#[test]
fn env_update_sets_deletes_and_appends() {
    let out = rewrite(
        "# c\nA=1\nB=2\nplain line\n",
        vec![entry(" A ", "10"), entry("B", "  "), entry("C", "3"), entry("  ", "x")],
    );
    assert_eq!(out, "# c\nA=10\nplain line\nC=3\n");
}

#[test]
fn env_update_without_edits_keeps_text() {
    assert_eq!(rewrite("A=1", vec![entry(" ", "v")]), "A=1");
    assert_eq!(rewrite("A=1", vec![]), "A=1");
}

#[test]
fn env_update_appends_by_ascending_key_last_value_wins() {
    assert_eq!(rewrite("", vec![entry("Z", "1"), entry("M", "2"), entry("Z", "3")]), "M=2\nZ=3\n");
}

#[test]
fn env_update_delete_wins_over_set_of_existing_line() {
    assert_eq!(rewrite("A=1\n", vec![entry("A", ""), entry("A", "5")]), "\n");
}

#[test]
fn env_update_normalises_crlf() {
    assert_eq!(rewrite("A=1\r\nB=2\r\n", vec![entry("B", "3")]), "A=1\nB=3\n");
}

#[test]
fn orphan_kill_spares_registered_processes() {
    let files = vec![
        file("openakita-ext.pid", b"{\"pid\": 40, \"started_by\": \"external\", \"started_at\": 1}"),
        file("openakita-own.pid", b"41"),
    ];
    let entries = list_service_pids(&files);
    // the scan found the external service, our own one, and two unregistered backends
    assert_eq!(orphans_to_stop(&vec![40, 77, 41, 78], &entries), vec![77, 78]);
    assert_eq!(orphans_to_stop(&vec![40], &entries), Vec::<u32>::new());
    assert_eq!(orphans_to_stop(&vec![5, 6], &vec![]), vec![5, 6]);
}

#[test]
fn full_shutdown_reports_only_stopped_registry_pids() {
    let outcomes = vec![
        EntryStop { pid: 1, identity_held: true, stopped: true },
        EntryStop { pid: 2, identity_held: false, stopped: false },
        EntryStop { pid: 3, identity_held: true, stopped: false },
        EntryStop { pid: 4, identity_held: true, stopped: true },
    ];
    assert_eq!(registry_stopped(&outcomes), vec![1, 4]);
    assert_eq!(alive_found(&vec![(7, true), (8, false), (9, true)]), vec![7, 9]);
}
