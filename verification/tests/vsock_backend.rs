use pelagos::backend::vsock::{
    collect_step, connect_failure, default_socket_path, follow_start, follow_step, list_containers_command,
    list_images_command, make_backend, parse_port_spec, port_forwards, register_port_message,
    require_output, run_command, socket_path_for, status_step, Next, Reply, VsockBackend,
};
use pelagos::backend::BackendError;
use pelagos::response::StreamKind;
use pelagos::{GuestCommand, GuestMount, GuestResponse};

fn stdout(data: &str) -> Reply {
    Reply::Response(GuestResponse::Stream { stream: StreamKind::Stdout, data: data.into() })
}

fn stderr(data: &str) -> Reply {
    Reply::Response(GuestResponse::Stream { stream: StreamKind::Stderr, data: data.into() })
}

/// Drives a collecting exchange over a transcript.
fn collect(replies: Vec<Reply>) -> Result<String, BackendError> {
    let mut acc = String::new();
    for r in &replies {
        match collect_step(&mut acc, r) {
            Next::Read => {}
            Next::Finish(Ok(())) => return Ok(acc),
            Next::Finish(Err(e)) => return Err(e),
        }
    }
    Ok(acc)
}

/// Drives a following exchange over a transcript.
fn follow(replies: Vec<Reply>) -> (Result<i32, BackendError>, Vec<String>) {
    let mut exit = 0;
    let mut lines = Vec::new();
    for r in &replies {
        let (next, out) = follow_step(&mut exit, r);
        lines.extend(out);
        match next {
            Next::Read => {}
            Next::Finish(Ok(())) => return (Ok(exit), lines),
            Next::Finish(Err(e)) => return (Err(e), lines),
        }
    }
    (Ok(exit), lines)
}

#[test]
fn collect_concatenates_stdout_until_exit() {
    let r = collect(vec![
        stdout("[{\"name\":"),
        stderr("warning"),
        stdout("\"a\"}]"),
        Reply::Response(GuestResponse::Exit { exit: 0 }),
        stdout("ignored"),
    ]);
    assert_eq!(r.unwrap(), "[{\"name\":\"a\"}]");
}

#[test]
fn collect_skips_unknown_and_unparseable_replies() {
    let r = collect(vec![
        Reply::Unparseable,
        Reply::Response(GuestResponse::Ready { ready: true }),
        stdout("x"),
        Reply::Response(GuestResponse::VersionInfo { version: 2, pelagos_version: "1.0".into() }),
        stdout("y"),
        Reply::Response(GuestResponse::Pong { pong: true }),
    ]);
    assert_eq!(r.unwrap(), "xy");
}

#[test]
fn collect_error_is_terminal() {
    let r = collect(vec![
        stdout("partial"),
        Reply::Response(GuestResponse::Error { error: "no such container".into() }),
        Reply::Response(GuestResponse::Exit { exit: 0 }),
    ]);
    match r {
        Err(BackendError::Other(m)) => assert_eq!(m, "no such container"),
        other => panic!("unexpected {other:?}"),
    }
}

#[test]
fn collect_ends_at_end_of_file() {
    assert_eq!(collect(vec![stdout("abc"), Reply::Closed, stdout("def")]).unwrap(), "abc");
}

#[test]
fn follow_forwards_lines_and_returns_the_exit_code() {
    let (r, lines) = follow(vec![
        stdout("pulling a\r\npulling b\n"),
        stderr("layer 1"),
        Reply::Unparseable,
        Reply::Response(GuestResponse::Exit { exit: 3 }),
        stdout("late"),
    ]);
    assert_eq!(r.unwrap(), 3);
    assert_eq!(lines, vec!["pulling a", "pulling b", "layer 1"]);
}

#[test]
fn follow_without_exit_reports_zero() {
    let (r, lines) = follow(vec![stdout("one\n\ntwo"), Reply::Closed]);
    assert_eq!(r.unwrap(), 0);
    assert_eq!(lines, vec!["one", "", "two"]);
}

#[test]
fn follow_error() {
    let (r, lines) = follow(vec![
        stdout("x\n"),
        Reply::Response(GuestResponse::Error { error: "pull failed".into() }),
    ]);
    assert!(matches!(r, Err(BackendError::Other(m)) if m == "pull failed"));
    assert_eq!(lines, vec!["x"]);
}

#[test]
fn status_exchange() {
    assert!(matches!(
        status_step(&Reply::Response(GuestResponse::KubernetesStatus { running: true })),
        Next::Finish(Ok(true))
    ));
    assert!(matches!(status_step(&stdout("noise")), Next::Read));
    assert!(matches!(
        status_step(&Reply::Response(GuestResponse::Exit { exit: 0 })),
        Next::Finish(Ok(false))
    ));
    assert!(matches!(status_step(&Reply::Closed), Next::Finish(Ok(false))));
    assert!(matches!(
        status_step(&Reply::Response(GuestResponse::Error { error: "e".into() })),
        Next::Finish(Err(BackendError::Other(_)))
    ));
}

#[test]
fn blank_listing_means_vm_not_ready() {
    match require_output(" \n\t".to_string()) {
        Err(BackendError::Other(m)) => assert_eq!(m, "VM not ready"),
        other => panic!("unexpected {other:?}"),
    }
    assert_eq!(require_output("[]".to_string()).unwrap(), "[]");
}

#[test]
fn connect_failures() {
    assert!(matches!(connect_failure(true, true, "x".into()),
        BackendError::Other(m) if m == "vsock connect timed out"));
    assert!(matches!(connect_failure(false, true, "x".into()),
        BackendError::Other(m) if m == "VM stopped"));
    assert!(matches!(connect_failure(false, false, "refused".into()),
        BackendError::Io(m) if m == "refused"));
}

#[test]
fn port_specs() {
    assert_eq!(parse_port_spec("8080:80"), Some((8080, 80)));
    assert_eq!(parse_port_spec("+1:2"), Some((1, 2)));
    assert_eq!(parse_port_spec("65535:0"), Some((65535, 0)));
    assert_eq!(parse_port_spec("65536:80"), None);
    assert_eq!(parse_port_spec("8080"), None);
    assert_eq!(parse_port_spec("a:80"), None);
    assert_eq!(parse_port_spec("80:"), None);
    assert_eq!(parse_port_spec("1:2:3"), None);
    assert_eq!(parse_port_spec("-1:2"), None);
    assert_eq!(
        port_forwards(&vec!["8080:80".into(), "junk".into(), "443:8443".into()]),
        vec![(8080, 80), (443, 8443)]
    );
}

#[test]
fn register_port_line() {
    assert_eq!(
        register_port_message(8080, 80),
        "{\"RegisterPort\":{\"host_port\":8080,\"container_port\":80}}\n"
    );
}

#[test]
fn socket_paths() {
    assert_eq!(
        socket_path_for(Some("/Users/me".into())),
        "/Users/me/.local/share/pelagos/vm.sock"
    );
    assert_eq!(socket_path_for(Some("/Users/me/".into())), "/Users/me/.local/share/pelagos/vm.sock");
    assert_eq!(socket_path_for(None), "/tmp/.local/share/pelagos/vm.sock");
    assert!(default_socket_path().ends_with(".local/share/pelagos/vm.sock"));
    assert!(VsockBackend::with_default_path().socket_path.ends_with("/.local/share/pelagos/vm.sock"));
    assert!(make_backend().socket_path.ends_with("vm.sock"));
    assert_eq!(VsockBackend::new("/tmp/x.sock").socket_path, "/tmp/x.sock");
}

#[test]
fn commands_sent() {
    assert!(matches!(list_containers_command(), GuestCommand::Ps { all: true, json: true }));
    assert!(matches!(list_images_command(), GuestCommand::ImageLs { json: true }));
    let mounts = vec![GuestMount {
        tag: "share0".into(),
        subpath: "site".into(),
        container_path: "/www".into(),
        read_only: false,
    }];
    match run_command("alpine:3.19", Some("web"), vec!["/bin/sh".into()], false,
        vec!["8080:80".into()], mounts)
    {
        GuestCommand::Run { image, args, env, mounts, publish, network, name, detach } => {
            assert_eq!(image, "alpine:3.19");
            assert_eq!(args, vec!["/bin/sh"]);
            assert!(env.is_empty());
            assert_eq!(mounts.len(), 1);
            assert_eq!(publish, vec!["8080:80"]);
            assert_eq!(network.as_deref(), Some("pasta"));
            assert_eq!(name.as_deref(), Some("web"));
            assert!(!detach);
        }
        other => panic!("unexpected {other:?}"),
    }
    match run_command("alpine", None, vec![], true, vec![], vec![]) {
        GuestCommand::Run { network, name, detach, .. } => {
            assert!(network.is_none());
            assert!(name.is_none());
            assert!(detach);
        }
        other => panic!("unexpected {other:?}"),
    }
}

#[test]
fn following_starts_from_exit_code_zero() {
    let mut exit = follow_start();
    assert_eq!(exit, 0);
    let (next, lines) = follow_step(&mut exit, &Reply::Closed);
    assert!(matches!(next, Next::Finish(Ok(()))));
    assert!(lines.is_empty());
    assert_eq!(exit, 0);
}
