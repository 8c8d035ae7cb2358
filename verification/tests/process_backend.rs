use pelagos::backend::process::{
    bin_candidates, check_status, exit_code_of, find_bin, first_existing, image_list_args, image_remove_args, kubernetes_plan,
    kubernetes_process_names, logs_args, make_backend, mount_arg, ps_args, pull_args,
    remove_args, run_args, stop_args, version_args, AfterLaunch, ProcessBackend,
};
use pelagos::backend::{keep_following, BackendError};
use pelagos::GuestMount;

#[test]
fn unavailable_backend_has_no_bin() {
    let b = ProcessBackend::unavailable();
    assert!(b.bin.is_none());
}

#[test]
fn unavailable_backend_reports_binary_not_found() {
    let b = ProcessBackend::unavailable();
    assert!(matches!(b.binary(), Err(BackendError::BinaryNotFound)));
    assert_eq!(b.pelagos_for_dockerd(), "pelagos");
}

#[test]
fn backend_from_lookup() {
    assert!(matches!(ProcessBackend::from_lookup(None), Err(BackendError::BinaryNotFound)));
    let b = ProcessBackend::from_lookup(Some("/usr/bin/pelagos".to_string())).unwrap();
    assert_eq!(b.binary().unwrap(), "/usr/bin/pelagos");
    assert_eq!(b.pelagos_for_dockerd(), "/usr/bin/pelagos");
}

#[test]
fn made_backend_has_a_nonempty_binary_if_any() {
    let b = make_backend();
    if let Some(p) = &b.bin {
        assert!(!p.is_empty());
    }
    match ProcessBackend::new() {
        Ok(b) => assert!(!b.bin.unwrap().is_empty()),
        Err(e) => assert!(matches!(e, BackendError::BinaryNotFound)),
    }
}

#[test]
fn fixed_argument_vectors() {
    assert_eq!(ps_args(), vec!["ps", "--all", "--format", "json"]);
    assert_eq!(version_args(), vec!["--version"]);
    assert_eq!(stop_args("web"), vec!["stop", "web"]);
    assert_eq!(remove_args("web", false), vec!["rm", "web"]);
    assert_eq!(remove_args("web", true), vec!["rm", "--force", "web"]);
    assert_eq!(image_list_args(), vec!["image", "ls", "--json"]);
    assert_eq!(pull_args("busybox:latest"), vec!["image", "pull", "busybox:latest"]);
    assert_eq!(image_remove_args("busybox:latest"), vec!["image", "rm", "busybox:latest"]);
    assert_eq!(logs_args("web", true), vec!["logs", "--follow", "web"]);
    assert_eq!(logs_args("web", false), vec!["logs", "web"]);
}

fn mount(tag: &str, subpath: &str, container_path: &str, read_only: bool) -> GuestMount {
    GuestMount {
        tag: tag.into(),
        subpath: subpath.into(),
        container_path: container_path.into(),
        read_only,
    }
}

#[test]
fn mount_arguments() {
    assert_eq!(mount_arg(&mount("share0", "", "/data", false)), "share0:/data");
    assert_eq!(
        mount_arg(&mount("share0", "mysite", "/usr/share/nginx/html", true)),
        "share0/mysite:/usr/share/nginx/html:ro"
    );
}

#[test]
fn run_arguments_in_order() {
    let args = run_args(
        "alpine:3.19",
        Some("my-sleep"),
        &vec!["sleep".to_string(), "60".to_string()],
        true,
        &vec!["8080:80".to_string()],
        &vec![mount("share0", "site", "/www", true)],
    );
    assert_eq!(
        args,
        vec![
            "run", "--name", "my-sleep", "--detach", "--publish", "8080:80", "--network",
            "pasta", "--mount", "share0/site:/www:ro", "alpine:3.19", "sleep", "60"
        ]
    );
    let bare = run_args("alpine:latest", None, &vec![], false, &vec![], &vec![]);
    assert_eq!(bare, vec!["run", "alpine:latest"]);
}

#[test]
fn exit_status_is_checked() {
    assert!(check_status(0, "ignored".to_string()).is_ok());
    match check_status(125, "no such container".to_string()) {
        Err(BackendError::CommandFailed { code, stderr }) => {
            assert_eq!(code, 125);
            assert_eq!(stderr, "no such container");
        }
        other => panic!("unexpected {other:?}"),
    }
    assert_eq!(exit_code_of(Some(3)), 3);
    assert_eq!(exit_code_of(None), -1);
}

#[test]
fn find_bin_falls_back_to_the_name() {
    let dirs = vec!["/nonexistent-dir-a".to_string(), "/nonexistent-dir-b".to_string()];
    assert_eq!(find_bin("api-server", &dirs), "api-server");
    assert_eq!(find_bin("sh", &vec!["/nonexistent".to_string(), "/bin".to_string()]), "/bin/sh");
}

#[test]
fn kubernetes_plan_starts_what_is_not_running() {
    let all = kubernetes_plan("pelagos", "dockerd", "api", "kubelet", false, false, false);
    assert_eq!(all.len(), 3);
    assert_eq!(all[0].program, "dockerd");
    assert_eq!(all[0].args, vec!["--pelagos-bin", "pelagos"]);
    assert_eq!(all[0].announce, "started pelagos-dockerd");
    assert_eq!(all[0].after, AfterLaunch::Pause);
    assert_eq!(all[1].program, "api");
    assert_eq!(
        all[1].args,
        vec![
            "--storage-backend", "sqlite", "--data-dir", "/var/lib/rusternetes/cluster.db",
            "--skip-auth", "--tls", "--tls-self-signed", "--tls-san", "localhost,127.0.0.1"
        ]
    );
    assert_eq!(all[1].after, AfterLaunch::AwaitApiServer);
    assert_eq!(all[2].program, "kubelet");
    assert_eq!(
        all[2].env,
        vec![
            ("DOCKER_HOST".to_string(), "unix:///var/run/pelagos-dockerd.sock".to_string()),
            ("RUST_MIN_STACK".to_string(), "8388608".to_string()),
        ]
    );
    assert_eq!(all[2].announce, "started kubelet");
    let some = kubernetes_plan("pelagos", "dockerd", "api", "kubelet", true, false, true);
    assert_eq!(some.len(), 1);
    assert_eq!(some[0].program, "api");
    assert!(kubernetes_plan("p", "d", "a", "k", true, true, true).is_empty());
    assert_eq!(kubernetes_process_names(), vec!["kubelet", "api-server", "pelagos-dockerd"]);
}

#[test]
fn error_messages() {
    assert_eq!(BackendError::BinaryNotFound.to_string(), "pelagos binary not found in PATH");
    assert_eq!(
        BackendError::CommandFailed { code: -1, stderr: "boom".into() }.to_string(),
        "pelagos exited with status -1: boom"
    );
    assert_eq!(
        BackendError::CommandFailed { code: 125, stderr: String::new() }.to_string(),
        "pelagos exited with status 125: "
    );
    assert_eq!(
        BackendError::ParseError("expected value".into()).to_string(),
        "failed to parse pelagos output: expected value"
    );
    assert_eq!(BackendError::Io("denied".into()).to_string(), "I/O error: denied");
    assert_eq!(BackendError::Other("VM stopped".into()).to_string(), "VM stopped");
}

#[test]
fn helper_binary_candidates_in_order() {
    let dirs = vec!["/usr/local/bin".to_string(), "/opt/k8s".to_string()];
    assert_eq!(bin_candidates("kubelet", &dirs), vec!["/usr/local/bin/kubelet", "/opt/k8s/kubelet"]);
    assert!(bin_candidates("kubelet", &vec![]).is_empty());
}

#[test]
fn first_existing_candidate_wins() {
    let dirs = vec!["/a".to_string(), "/b".to_string(), "/c".to_string()];
    assert_eq!(first_existing("x", &dirs, &vec![false, true, true]), "/b/x");
    assert_eq!(first_existing("x", &dirs, &vec![true, false, true]), "/a/x");
    assert_eq!(first_existing("x", &dirs, &vec![false, false, false]), "x");
    assert_eq!(first_existing("x", &vec![], &vec![]), "x");
}

#[test]
fn kubernetes_status_needs_the_binary() {
    let b = ProcessBackend::unavailable();
    assert!(matches!(b.kubernetes_status_of(true, true), Err(BackendError::BinaryNotFound)));
    let b = ProcessBackend::from_lookup(Some("/usr/bin/pelagos".to_string())).unwrap();
    assert!(matches!(b.kubernetes_status_of(true, true), Ok(true)));
    assert!(matches!(b.kubernetes_status_of(true, false), Ok(false)));
    assert!(matches!(b.kubernetes_status_of(false, true), Ok(false)));
}

#[test]
fn found_backend_binary_is_pelagos() {
    if let Ok(b) = ProcessBackend::new() {
        assert!(b.bin.unwrap().ends_with("pelagos"));
    }
    if let Some(p) = make_backend().bin {
        assert!(p.ends_with("pelagos"));
    }
}

#[test]
fn following_stops_only_when_unheard() {
    assert!(keep_following(true, true));
    assert!(keep_following(true, false));
    assert!(keep_following(false, false));
    assert!(!keep_following(false, true));
}
