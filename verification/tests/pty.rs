use pelagos::pty::{
    close_action, exec_window_title, find_pelagos_bin, initial_pty_size, pelagos_candidates, label_for, locate_pelagos_bin,
    pelagos_bin_choice, pelagos_bin_location, CloseAction, new_terminal_label, no_session_message,
    pty_args, run_window_title, LabelMap, PtyMap, PtyMode, PtyParams,
};

#[test]
fn pty_state_starts_empty() {
    let map: PtyMap<()> = PtyMap::new();
    assert!(map.pending.is_empty());
    assert!(map.sessions.is_empty());
}

#[test]
fn find_pelagos_bin_returns_nonempty_string() {
    let bin = find_pelagos_bin();
    assert!(!bin.is_empty());
}

#[test]
fn pending_params_insert_and_remove() {
    let mut map: PtyMap<()> = PtyMap::new();
    let label = "terminal-test-abc".to_string();

    map.pending.insert(
        label.clone(),
        PtyParams {
            mode: PtyMode::Run {
                image: "alpine:latest".into(),
                name: Some("my-container".into()),
                args: vec!["/bin/sh".into()],
                ports: vec!["8080:80".into()],
                volumes: vec![],
            },
        },
    );
    assert!(map.pending.contains_key(&label));

    let params = map.pending.remove(&label).expect("params should exist");
    match params.mode {
        PtyMode::Run { image, name, args, ports, volumes } => {
            assert_eq!(image, "alpine:latest");
            assert_eq!(name.as_deref(), Some("my-container"));
            assert_eq!(args, vec!["/bin/sh"]);
            assert_eq!(ports, vec!["8080:80"]);
            assert!(volumes.is_empty());
        }
        _ => panic!("expected Run mode"),
    }

    assert!(map.pending.is_empty());
}

#[test]
fn pending_params_exec_mode() {
    let mut map: PtyMap<()> = PtyMap::new();
    let label = "terminal-exec-test".to_string();

    map.pending.insert(
        label.clone(),
        PtyParams {
            mode: PtyMode::Exec {
                container: "my-container".into(),
                cmd: vec!["bash".into()],
            },
        },
    );

    let params = map.pending.remove(&label).expect("params should exist");
    match params.mode {
        PtyMode::Exec { container, cmd } => {
            assert_eq!(container, "my-container");
            assert_eq!(cmd, vec!["bash"]);
        }
        _ => panic!("expected Exec mode"),
    }
}

#[test]
fn pty_close_unknown_label_is_noop() {
    // Closing an unknown label must not panic: it removes nothing.
    let mut map: PtyMap<()> = PtyMap::new();
    map.close("terminal-nonexistent");
    assert!(map.pending.is_empty());
    assert!(map.sessions.is_empty());
}

#[test]
fn label_format_is_prefixed() {
    let label = new_terminal_label();
    assert!(label.starts_with("terminal-"));
    assert!(label.len() > "terminal-".len());
}

#[test]
fn new_labels_are_32_lowercase_hex_digits_after_the_prefix() {
    let label = new_terminal_label();
    let id = &label["terminal-".len()..];
    assert_eq!(id.len(), 32);
    assert!(id.chars().all(|c| c.is_ascii_digit() || ('a'..='f').contains(&c)));
    assert_ne!(label, new_terminal_label());
}

#[test]
fn label_for_prefixes_the_identifier() {
    assert_eq!(label_for("abc"), "terminal-abc");
}

#[test]
fn take_pending_is_once_only() {
    let mut map: PtyMap<u32> = PtyMap::new();
    map.park(
        "terminal-1".to_string(),
        PtyParams { mode: PtyMode::Exec { container: "c".into(), cmd: vec![] } },
    );
    assert!(map.take_pending("terminal-1").is_ok());
    assert_eq!(
        map.take_pending("terminal-1").unwrap_err(),
        "no pending PTY for label terminal-1"
    );
    assert_eq!(map.take_pending("nope").unwrap_err(), "no pending PTY for label nope");
}

#[test]
fn sessions_are_kept_and_closed() {
    let mut map: PtyMap<u32> = PtyMap::new();
    map.add_session("terminal-a".to_string(), 7);
    map.add_session("terminal-b".to_string(), 8);
    assert_eq!(map.sessions.get("terminal-a"), Some(&7));
    map.close("terminal-a");
    assert_eq!(map.sessions.get("terminal-a"), None);
    assert_eq!(map.sessions.get("terminal-b"), Some(&8));
    assert_eq!(no_session_message("terminal-a"), "no PTY session for label terminal-a");
}

#[test]
fn label_map_insert_hands_back_the_replaced_value() {
    let mut m: LabelMap<&str> = LabelMap::new();
    assert_eq!(m.insert("x".to_string(), "one"), None);
    assert_eq!(m.insert("y".to_string(), "two"), None);
    assert_eq!(m.insert("x".to_string(), "three"), Some("one"));
    assert_eq!(m.get("x"), Some(&"three"));
    assert_eq!(m.remove("x"), Some("three"));
    assert_eq!(m.remove("x"), None);
    assert!(m.contains_key("y"));
    assert!(!m.is_empty());
}

#[test]
fn run_session_arguments() {
    let mode = PtyMode::Run {
        image: "alpine:latest".into(),
        name: Some("itest".into()),
        args: vec!["/bin/sh".into()],
        ports: vec!["8080:80".into(), "9000:90".into()],
        volumes: vec!["/data:/data:ro".into()],
    };
    assert_eq!(
        pty_args(&mode),
        vec![
            "run", "--tty", "--interactive", "--name", "itest", "-p", "8080:80", "-p", "9000:90",
            "-n", "pasta", "-v", "/data:/data:ro", "alpine:latest", "/bin/sh"
        ]
    );
    let plain = PtyMode::Run {
        image: "alpine".into(),
        name: None,
        args: vec![],
        ports: vec![],
        volumes: vec![],
    };
    assert_eq!(pty_args(&plain), vec!["run", "--tty", "--interactive", "alpine"]);
}

#[test]
fn exec_session_defaults_to_sh() {
    let mode = PtyMode::Exec { container: "web".into(), cmd: vec![] };
    assert_eq!(pty_args(&mode), vec!["exec", "-i", "web", "sh"]);
    let mode = PtyMode::Exec { container: "web".into(), cmd: vec!["bash".into(), "-l".into()] };
    assert_eq!(pty_args(&mode), vec!["exec", "-i", "web", "bash", "-l"]);
}

#[test]
fn window_titles() {
    assert_eq!(run_window_title("alpine:latest"), "pelagos — alpine:latest");
    assert_eq!(exec_window_title("web"), "pelagos — exec web");
}

#[test]
fn pelagos_location_order() {
    let found = Some("/home/u/.cargo/bin/pelagos".to_string());
    assert_eq!(pelagos_bin_choice(true, true, found.clone()), "/opt/homebrew/bin/pelagos");
    assert_eq!(pelagos_bin_choice(false, true, found.clone()), "/usr/local/bin/pelagos");
    assert_eq!(pelagos_bin_choice(false, false, found.clone()), "/home/u/.cargo/bin/pelagos");
    assert_eq!(pelagos_bin_choice(false, false, None), "pelagos");
    assert_eq!(pelagos_bin_location(false, false, None), None);
    assert_eq!(pelagos_bin_location(false, true, None), Some("/usr/local/bin/pelagos".to_string()));
}

#[test]
fn located_pelagos_is_never_empty() {
    if let Some(p) = locate_pelagos_bin() {
        assert!(!p.is_empty());
        assert_eq!(find_pelagos_bin(), p);
    } else {
        assert_eq!(find_pelagos_bin(), "pelagos");
    }
}

#[test]
fn closing_windows() {
    assert_eq!(close_action("terminal-0123abcd"), CloseAction::EndSession);
    assert_eq!(close_action("main"), CloseAction::HideMain);
    assert_eq!(close_action("terminal"), CloseAction::HideMain);
}

#[test]
fn pelagos_probe_places() {
    assert_eq!(pelagos_candidates(), vec!["/opt/homebrew/bin/pelagos", "/usr/local/bin/pelagos"]);
    assert!(find_pelagos_bin().ends_with("pelagos"));
}

#[test]
fn pty_opens_at_24_by_80() {
    assert_eq!(initial_pty_size(), (24, 80));
}
