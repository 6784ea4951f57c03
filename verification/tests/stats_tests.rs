use boxtop::entity::{EntityDescriptor, PortMapping};
use boxtop::entity::{build_entity, build_entity_list};
use boxtop::stats::{aggregate_gpu_usage, compute_container_stats, lookup_vram, parse_gpu_csv,
    parse_vram_percent, RawCpuSample};
use boxtop::status::ContainerStatus;

fn cpu_sample(total: u64, pre: u64, sys: u64, presys: u64, ncpus: u64) -> RawCpuSample {
    RawCpuSample {
        total_usage: total,
        pretotal_usage: pre,
        system_usage: Some(sys),
        presystem_usage: Some(presys),
        online_cpus: Some(ncpus),
        percpu_len: None,
    }
}

#[test]
fn cpu_percent_from_deltas() {
    // delta 50 over a host delta of 1000, scaled by 4 CPUs:
    // 50/1000 * 4 * 100% = 20% = 2000 hundredths.
    let s = compute_container_stats(cpu_sample(150, 100, 2000, 1000, 4), None, None, 0, 0);
    assert_eq!(s.cpu_centi_percent, 2000);
}

#[test]
fn cpu_percent_zero_without_positive_deltas() {
    let s = compute_container_stats(cpu_sample(100, 100, 2000, 1000, 4), None, None, 0, 0);
    assert_eq!(s.cpu_centi_percent, 0);
    let s2 = compute_container_stats(cpu_sample(150, 100, 1000, 1000, 4), None, None, 0, 0);
    assert_eq!(s2.cpu_centi_percent, 0);
}

#[test]
fn cpu_count_falls_back_to_percpu_then_one() {
    let mut c = cpu_sample(150, 100, 2000, 1000, 0);
    c.online_cpus = None;
    c.percpu_len = Some(2);
    let s = compute_container_stats(c, None, None, 0, 0);
    assert_eq!(s.cpu_centi_percent, 1000);
    let mut c2 = cpu_sample(150, 100, 2000, 1000, 0);
    c2.online_cpus = None;
    c2.percpu_len = None;
    let s2 = compute_container_stats(c2, None, None, 0, 0);
    assert_eq!(s2.cpu_centi_percent, 500);
}

#[test]
fn memory_defaults_and_percent() {
    let s = compute_container_stats(cpu_sample(0, 0, 0, 0, 1), Some(256), Some(1024), 7, 9);
    assert_eq!(s.memory_usage_bytes, 256);
    assert_eq!(s.memory_limit_bytes, 1024);
    assert_eq!(s.memory_centi_percent, 2500);
    assert_eq!(s.net_rx_bytes, 7);
    assert_eq!(s.net_tx_bytes, 9);
    // The probe never computes rates: they stay zero.
    assert_eq!(s.net_rx_rate, 0);
    assert_eq!(s.net_tx_rate, 0);
    assert_eq!(s.vram_usage_mb, None);
    let d = compute_container_stats(cpu_sample(0, 0, 0, 0, 1), None, None, 0, 0);
    assert_eq!(d.memory_usage_bytes, 0);
    assert_eq!(d.memory_limit_bytes, 1);
}

#[test]
fn gpu_csv_parses_pid_memory_pairs() {
    let rows = parse_gpu_csv("1234, 512\n5678, 1024\nbad line\n");
    assert_eq!(rows, vec![(1234, 512), (5678, 1024)]);
}

#[test]
fn vram_percent_from_used_total() {
    assert_eq!(parse_vram_percent("2048, 8192"), Some(2500));
    assert_eq!(parse_vram_percent("1, 0"), None);
    assert_eq!(parse_vram_percent("garbage"), None);
}

#[test]
fn gpu_lookup_exact_match() {
    let table = vec![("abc123".to_string(), 100u64), ("def".to_string(), 200u64)];
    assert_eq!(lookup_vram(&table, "abc123"), Some(100));
}

#[test]
fn gpu_lookup_prefix_both_directions() {
    // A truncated cache entry is found by the full id, and a full cache
    // entry is found by a truncated query.
    let truncated = vec![("abc1".to_string(), 100u64)];
    assert_eq!(lookup_vram(&truncated, "abc123456789"), Some(100));
    let full = vec![("abc123456789".to_string(), 250u64)];
    assert_eq!(lookup_vram(&full, "abc1"), Some(250));
    assert_eq!(lookup_vram(&full, "zzz"), None);
}

#[test]
fn gpu_aggregation_sums_per_container() {
    let entries = vec![
        ("a".to_string(), 100u64),
        ("b".to_string(), 10u64),
        ("a".to_string(), 50u64),
    ];
    let table = aggregate_gpu_usage(entries);
    assert_eq!(lookup_vram(&table, "a"), Some(150));
    assert_eq!(lookup_vram(&table, "b"), Some(10));
    assert_eq!(table.len(), 2);
}

#[test]
fn build_entity_normalises_descriptor() {
    let d = EntityDescriptor {
        id: "deadbeef".to_string(),
        name: "/web-1".to_string(),
        image: "nginx:latest".to_string(),
        state: "Running".to_string(),
        ports: vec![
            PortMapping { host_port: Some(8080), container_port: 80, protocol: "tcp".to_string() },
        ],
        created: Some(1700000000),
        group: Some("proj".to_string()),
    };
    let e = build_entity(d);
    assert_eq!(e.name, "web-1");
    assert_eq!(e.status, ContainerStatus::Running);
    assert!(!e.is_cli);
    assert_eq!(e.port, Some(80));
    assert!(e.stats.is_none());
    assert_eq!(e.group.as_deref(), Some("proj"));
}

#[test]
fn entity_without_host_ports_is_cli() {
    let d = EntityDescriptor {
        id: "x".to_string(),
        name: "tool".to_string(),
        image: "img".to_string(),
        state: "exited".to_string(),
        ports: vec![
            PortMapping { host_port: None, container_port: 9000, protocol: "tcp".to_string() },
        ],
        created: None,
        group: None,
    };
    let e = build_entity(d);
    assert!(e.is_cli);
    assert_eq!(e.status, ContainerStatus::Exited);
}

#[test]
fn entity_list_is_sorted_by_name() {
    let mk = |n: &str| EntityDescriptor {
        id: n.to_string(),
        name: n.to_string(),
        image: "i".to_string(),
        state: "running".to_string(),
        ports: Vec::new(),
        created: None,
        group: None,
    };
    let list = build_entity_list(vec![mk("zeta"), mk("alpha"), mk("midway")]);
    let names: Vec<&str> = list.iter().map(|e| e.name.as_str()).collect();
    assert_eq!(names, vec!["alpha", "midway", "zeta"]);
}

#[test]
fn entity_list_sort_keeps_duplicates() {
    let mk = |n: &str, id: &str| EntityDescriptor {
        id: id.to_string(),
        name: n.to_string(),
        image: "i".to_string(),
        state: "running".to_string(),
        ports: Vec::new(),
        created: None,
        group: None,
    };
    let list = build_entity_list(vec![mk("b", "1"), mk("a", "2"), mk("b", "3")]);
    let names: Vec<&str> = list.iter().map(|e| e.name.as_str()).collect();
    assert_eq!(names, vec!["a", "b", "b"]);
    let mut ids: Vec<&str> = list.iter().map(|e| e.id.as_str()).collect();
    ids.sort();
    assert_eq!(ids, vec!["1", "2", "3"]);
}

#[test]
fn unknown_state_maps_to_not_deployed() {
    assert_eq!(ContainerStatus::from_docker_state("hibernating"), ContainerStatus::NotDeployed);
    assert_eq!(ContainerStatus::from_docker_state("PAUSED"), ContainerStatus::Paused);
    assert_eq!(ContainerStatus::from_docker_state("dead"), ContainerStatus::Dead);
}

#[test]
fn status_helpers() {
    assert!(ContainerStatus::Running.is_running());
    assert!(!ContainerStatus::Paused.is_running());
    assert!(ContainerStatus::Paused.is_active());
    assert!(!ContainerStatus::Exited.is_active());
    assert_eq!(ContainerStatus::Restarting.as_str(), "restarting");
}

#[test]
fn port_display_forms() {
    let published = PortMapping {
        host_port: Some(8080),
        container_port: 80,
        protocol: "tcp".to_string(),
    };
    assert_eq!(published.display(), "8080:80/tcp");
    let private = PortMapping { host_port: None, container_port: 53, protocol: "udp".to_string() };
    assert_eq!(private.display(), "53/udp");
}

#[test]
fn cpu_scaled_result_is_capped() {
    // An absurd delta caps at 10000% rather than overflowing.
    let s = compute_container_stats(
        cpu_sample(u64::MAX, 0, 2, 1, u64::MAX),
        None,
        None,
        0,
        0,
    );
    assert_eq!(s.cpu_centi_percent, 1_000_000);
}
