use boxtop::cgroup::{container_id_from_cgroup_v1, container_id_from_cgroup_v2,
    extract_container_id_from_path};

#[test]
fn test_extract_container_id_docker() {
    let path = "/docker/abc123def456789012345678901234567890123456789012345678901234";
    assert!(extract_container_id_from_path(path).is_some());
}

#[test]
fn test_extract_container_id_scope() {
    let path = "/system.slice/docker-abc123def456.scope";
    assert!(extract_container_id_from_path(path).is_some());
}

#[test]
fn extract_takes_first_64_chars_of_long_id() {
    let full = "0123456789abcdef0123456789abcdef0123456789abcdef0123456789abcdefEXTRA";
    let path = format!("/docker/{}", full);
    let id = extract_container_id_from_path(&path).unwrap();
    assert_eq!(id, &full[..64]);
}

#[test]
fn extract_keeps_short_hex_id() {
    let id = extract_container_id_from_path("/docker/abc123def456").unwrap();
    assert_eq!(id, "abc123def456");
}

#[test]
fn extract_rejects_non_hex_docker_id() {
    assert!(extract_container_id_from_path("/docker/not-hex-id!!").is_none());
}

#[test]
fn extract_rejects_short_scope_id() {
    assert!(extract_container_id_from_path("/system.slice/docker-abc.scope").is_none());
}

#[test]
fn extract_containerd_path() {
    let id = extract_container_id_from_path("/containerd/abcdef012345extra").unwrap();
    assert_eq!(id, "abcdef012345extra");
}

#[test]
fn extract_rejects_plain_path() {
    assert!(extract_container_id_from_path("/user.slice/session-1.scope").is_none());
}

#[test]
fn cgroup_v2_unified_line() {
    let content = "0::/system.slice/docker-abc123def456.scope";
    assert_eq!(container_id_from_cgroup_v2(content).unwrap(), "abc123def456");
}

#[test]
fn cgroup_v2_skips_unrecognised_lines() {
    let content = "0::/user.slice/x\n0::/docker/abc123def456789";
    assert_eq!(container_id_from_cgroup_v2(content).unwrap(), "abc123def456789");
}

#[test]
fn cgroup_v2_none_without_docker_lines() {
    assert!(container_id_from_cgroup_v2("0::/init.scope\n1:name=x:/y").is_none());
}

#[test]
fn cgroup_v1_controller_line() {
    let content = "12:memory:/docker/abc123def456789012";
    assert_eq!(container_id_from_cgroup_v1(content).unwrap(), "abc123def456789012");
}

#[test]
fn cgroup_v1_none_without_two_colons() {
    assert!(container_id_from_cgroup_v1("justtext\nmore").is_none());
}
