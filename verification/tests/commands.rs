use pelagos::backend::BackendError;
use pelagos::commands::{
    mount_from_strip, parse_bind_volumes, parse_volume, parse_volumes, parse_volumes_in,
    parse_volumes_with_home, vm_status_for,
};
use pelagos::backend::process::{mount_arg, run_args};
use pelagos::paths::path_stays_within;
use pelagos::VmStatus;

fn specs(v: &[&str]) -> Vec<String> {
    v.iter().map(|s| s.to_string()).collect()
}

fn other(e: BackendError) -> String {
    match e {
        BackendError::Other(m) => m,
        e => panic!("unexpected {e:?}"),
    }
}

#[test]
fn volumes_under_home_become_share0_subpaths() {
    let m = parse_volumes_in(
        &specs(&["~/site:/usr/share/nginx/html:ro", "/Users/me/data/db:/var/lib/db", "~:/home"]),
        "/Users/me",
    )
    .unwrap();
    assert_eq!(m.len(), 3);
    assert_eq!(m[0].tag, "share0");
    assert_eq!(m[0].subpath, "site");
    assert_eq!(m[0].container_path, "/usr/share/nginx/html");
    assert!(m[0].read_only);
    assert_eq!(m[1].subpath, "data/db");
    assert_eq!(m[1].container_path, "/var/lib/db");
    assert!(!m[1].read_only);
    assert_eq!(m[2].subpath, "");
    assert_eq!(m[2].container_path, "/home");
}

#[test]
fn third_piece_other_than_ro_is_malformed() {
    assert_eq!(
        other(parse_volume("~/a:/b:rw", "/Users/me").unwrap_err()),
        "invalid volume spec \"~/a:/b:rw\": expected HOST:CONTAINER or HOST:CONTAINER:ro"
    );
    assert!(other(parse_volume("~/a:/b:ro:extra", "/Users/me").unwrap_err())
        .starts_with("invalid volume spec"));
    let e = parse_volumes_with_home(&specs(&["~/site:/data:bogus"]), Some("/Users/alice".to_string()))
        .unwrap_err();
    assert!(other(e).starts_with("invalid volume spec"));
}

#[test]
fn parent_components_cannot_leave_home() {
    assert_eq!(
        other(parse_volume("~/../../etc:/data", "/Users/alice").unwrap_err()),
        "volume host path /Users/alice/../../etc is outside $HOME — only paths under $HOME are accessible in the VM without a restart"
    );
    assert!(parse_volume("~/a/../../b:/x", "/Users/alice").is_err());
    let m = parse_volume("~/a/../b:/x", "/Users/alice").unwrap();
    assert_eq!(m.subpath, "a/../b");
    let m = parse_volume("/Users/alice/x/..:/x", "/Users/alice").unwrap();
    assert_eq!(m.subpath, "x/..");
    let m = parse_volume("~/a..b/..c:/x", "/Users/alice").unwrap();
    assert_eq!(m.subpath, "a..b/..c");
}

#[test]
fn home_directory_lookup_result() {
    assert!(parse_volumes_with_home(&vec![], None).unwrap().is_empty());
    assert_eq!(
        other(parse_volumes_with_home(&specs(&["~/a:/a"]), None).unwrap_err()),
        "cannot determine $HOME"
    );
    let m = parse_volumes_with_home(&specs(&["~/a:/a"]), Some("/home/u".to_string())).unwrap();
    assert_eq!(m[0].subpath, "a");
}

#[test]
fn mount_from_strip_result() {
    let m = mount_from_strip(Some("site".to_string()), "/Users/me/site", "/www", true).unwrap();
    assert_eq!(m.tag, "share0");
    assert_eq!(m.subpath, "site");
    assert_eq!(m.container_path, "/www");
    assert!(m.read_only);
    assert_eq!(
        other(mount_from_strip(Some("../x".to_string()), "/Users/me/../x", "/x", false).unwrap_err()),
        "volume host path /Users/me/../x is outside $HOME — only paths under $HOME are accessible in the VM without a restart"
    );
    assert_eq!(
        other(mount_from_strip(None, "/opt/x", "/x", false).unwrap_err()),
        "volume host path /opt/x is outside $HOME — only paths under $HOME are accessible in the VM without a restart"
    );
}

#[test]
fn malformed_volume_spec() {
    assert_eq!(
        other(parse_volume("nocolon", "/Users/me").unwrap_err()),
        "invalid volume spec \"nocolon\": expected HOST:CONTAINER or HOST:CONTAINER:ro"
    );
}

#[test]
fn relative_host_path() {
    assert_eq!(
        other(parse_volume("data:/data", "/Users/me").unwrap_err()),
        "volume host path \"data\" must be absolute (or start with ~/)"
    );
}

#[test]
fn host_path_outside_home() {
    assert_eq!(
        other(parse_volume("/etc:/etc", "/Users/me").unwrap_err()),
        "volume host path /etc is outside $HOME — only paths under $HOME are accessible in the VM without a restart"
    );
    assert!(parse_volume("/Users/meme/x:/x", "/Users/me").is_err());
}

#[test]
fn first_bad_spec_wins() {
    let e = parse_volumes_in(&specs(&["~/ok:/ok", "bad", "/etc:/etc"]), "/Users/me").unwrap_err();
    assert!(other(e).starts_with("invalid volume spec"));
}

#[test]
fn no_specs_no_mounts() {
    assert!(parse_volumes(&vec![]).unwrap().is_empty());
}

#[test]
fn bind_volumes_on_linux() {
    let m = parse_bind_volumes(&specs(&["/srv/www:/www:ro", "junk", "/data:/data", "/x:/y:rw"]));
    assert_eq!(m.len(), 3);
    assert_eq!(m[2].tag, "/x");
    assert_eq!(m[2].container_path, "/y");
    assert!(!m[2].read_only);
    assert_eq!(m[0].tag, "/srv/www");
    assert_eq!(m[0].subpath, "");
    assert_eq!(m[0].container_path, "/www");
    assert!(m[0].read_only);
    assert_eq!(m[1].tag, "/data");
    assert!(!m[1].read_only);
}

#[test]
fn bind_mount_passes_host_path() {
    let m = parse_bind_volumes(&specs(&["/home/u/site:/data:ro"]));
    assert_eq!(mount_arg(&m[0]), "/home/u/site:/data:ro");
    let args = run_args("nginx", None, &vec![], false, &vec![], &m);
    assert_eq!(args, vec!["run", "--mount", "/home/u/site:/data:ro", "nginx"]);
}

#[test]
fn vm_status_from_ping() {
    assert_eq!(vm_status_for(true), VmStatus::Running);
    assert_eq!(vm_status_for(false), VmStatus::Stopped);
}

#[test]
fn relative_paths_staying_within() {
    assert!(path_stays_within(""));
    assert!(path_stays_within("a/../b"));
    assert!(path_stays_within("a/./.."));
    assert!(path_stays_within("..a/b.."));
    assert!(path_stays_within("a//b/../../"));
    assert!(!path_stays_within(".."));
    assert!(!path_stays_within("../x"));
    assert!(!path_stays_within("a/../../x"));
    assert!(!path_stays_within("./.."));
}
