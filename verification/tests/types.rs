use std::collections::HashMap;

use pelagos::{ContainerInfo, ContainerStatus, ImageInfo};

fn container(status: ContainerStatus, command: &[&str]) -> ContainerInfo {
    ContainerInfo {
        name: "my-app".into(),
        status,
        pid: 12345,
        started_at: "2026-03-15T12:00:00Z".into(),
        rootfs: "ubuntu:22.04".into(),
        command: command.iter().map(|s| s.to_string()).collect(),
        image: Some("ubuntu:22.04".into()),
        exit_code: None,
        health: None,
        bridge_ip: None,
        network_ips: HashMap::new(),
        labels: HashMap::new(),
    }
}

fn image(digest: &str) -> ImageInfo {
    ImageInfo { reference: "alpine:latest".into(), digest: digest.into(), layers: vec![] }
}

#[test]
fn short_digest_drops_the_prefix_and_keeps_twelve() {
    assert_eq!(image("sha256:0123456789abcdef0123").short_digest(), "0123456789ab");
    assert_eq!(image("0123456789abcdef").short_digest(), "0123456789ab");
    assert_eq!(image("sha256:abc").short_digest(), "abc");
    assert_eq!(image("sha256:").short_digest(), "");
    assert_eq!(image("").short_digest(), "");
    assert_eq!(image("md5:0123456789abcdef").short_digest(), "md5:01234567");
}

#[test]
fn is_running_follows_the_status() {
    assert!(container(ContainerStatus::Running, &[]).is_running());
    assert!(!container(ContainerStatus::Exited, &[]).is_running());
}

#[test]
fn command_summary_truncates() {
    let c = container(ContainerStatus::Running, &["/bin/sh", "-c", "sleep 1000"]);
    assert_eq!(c.command_summary(100), "/bin/sh -c sleep 1000");
    assert_eq!(c.command_summary(21), "/bin/sh -c sleep 1000");
    assert_eq!(c.command_summary(10), "/bin/sh -…");
    assert_eq!(c.command_summary(1), "…");
    assert_eq!(c.command_summary(0), "");
    let empty = container(ContainerStatus::Running, &[]);
    assert_eq!(empty.command_summary(0), "");
    let wide = container(ContainerStatus::Running, &["échō", "ünïcode"]);
    assert_eq!(wide.command_summary(6), "échō …");
}

#[test]
fn status_text() {
    assert_eq!(ContainerStatus::Running.to_string(), "running");
    assert_eq!(ContainerStatus::Exited.to_string(), "exited");
}
