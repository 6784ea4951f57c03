use boxtop::engine::{Engine, GpuSample, HostSample, RefreshKind};
use boxtop::entity::{ContainerInfo, ContainerStats};
use boxtop::status::{ContainerStatus, StatusFilter};

fn engine() -> Engine {
    Engine::new(3000, 2000, 5000, 2000, 30)
}

fn entity(name: &str, status: ContainerStatus) -> ContainerInfo {
    ContainerInfo {
        id: format!("id-{}", name),
        name: name.to_string(),
        image: "img".to_string(),
        status,
        is_cli: true,
        port: None,
        ports: Vec::new(),
        stats: None,
        created: None,
        group: None,
    }
}

fn metrics(cpu: u64, mem: u64) -> ContainerStats {
    ContainerStats {
        cpu_centi_percent: cpu,
        memory_usage_bytes: 0,
        memory_limit_bytes: 1,
        memory_centi_percent: mem,
        net_rx_bytes: 0,
        net_tx_bytes: 0,
        net_rx_rate: 0,
        net_tx_rate: 0,
        vram_usage_mb: None,
    }
}

fn host() -> HostSample {
    HostSample {
        cpu_centi_percent: 1234,
        memory_used_bytes: 1 << 30,
        memory_total_bytes: 4 << 30,
        disk_used_bytes: 10,
        disk_total_bytes: 100,
    }
}

#[test]
fn cadence_fires_each_class_on_its_own_clock() {
    // Intervals: list 3s, metrics 2s, GPU 5s. Ticks every 0.5s.
    // The list refresh fires exactly on ticks at least 3s past its last
    // fire, independent of the metrics clock.
    let mut e = engine();
    // Both classes fire at t=0 (the startup refresh).
    let mut t: u64 = 0;
    e.apply_list_refresh(t, Vec::new(), &Vec::new());
    e.apply_metrics_refresh(t, &Vec::new());
    let mut list_fires = Vec::new();
    let mut metrics_fires = Vec::new();
    for _ in 0..14 {
        t += 500;
        match e.tick_refresh_kind(t) {
            RefreshKind::FullList => {
                list_fires.push(t);
                e.apply_list_refresh(t, Vec::new(), &Vec::new());
            }
            RefreshKind::MetricsOnly => {
                metrics_fires.push(t);
                e.apply_metrics_refresh(t, &Vec::new());
            }
            RefreshKind::NoRefresh => {}
        }
    }
    // The list fires exactly on the ticks 3s past its last fire; metrics
    // runs on its own 2s clock, and yields to the full list when both are
    // due on the same tick (t=6000), firing on the next tick instead.
    assert_eq!(list_fires, vec![3000, 6000]);
    assert_eq!(metrics_fires, vec![2000, 4000, 6500]);
}

#[test]
fn list_refresh_not_due_before_interval() {
    let mut e = engine();
    e.apply_list_refresh(1000, Vec::new(), &Vec::new());
    assert!(!e.should_refresh_containers(3999));
    assert!(e.should_refresh_containers(4000));
}

#[test]
fn partial_metrics_failure_is_isolated() {
    // Entity 1's metrics call failed: it keeps metrics = None, the list
    // still has every entity, and the others keep their snapshots.
    let mut e = engine();
    let ents = vec![
        entity("a", ContainerStatus::Running),
        entity("b", ContainerStatus::Running),
        entity("c", ContainerStatus::Running),
    ];
    let samples = vec![Some(metrics(100, 200)), None, Some(metrics(300, 400))];
    e.apply_list_refresh(0, ents, &samples);
    assert_eq!(e.containers.len(), 3);
    assert_eq!(e.containers[0].stats.as_ref().unwrap().cpu_centi_percent, 100);
    assert!(e.containers[1].stats.is_none());
    assert_eq!(e.containers[2].stats.as_ref().unwrap().cpu_centi_percent, 300);
    // History recorded only the sampled entities.
    assert_eq!(e.history.get_cpu("a"), vec![100]);
    assert_eq!(e.history.get_cpu("b"), Vec::<u64>::new());
    assert_eq!(e.history.get_cpu("c"), vec![300]);
}

#[test]
fn metrics_only_refresh_updates_in_place() {
    let mut e = engine();
    e.apply_list_refresh(0, vec![entity("a", ContainerStatus::Running)], &vec![None]);
    e.apply_metrics_refresh(2000, &vec![Some(metrics(50, 60))]);
    assert_eq!(e.containers.len(), 1);
    assert_eq!(e.containers[0].stats.as_ref().unwrap().memory_centi_percent, 60);
    assert_eq!(e.history.get_mem("a"), vec![60]);
}

#[test]
fn gpu_cache_is_reused_between_gpu_refreshes() {
    let mut e = engine();
    let gpu = GpuSample {
        vram_centi_percent: Some(4200),
        table: vec![("id-a".to_string(), 512)],
    };
    e.apply_system_sample(0, host(), Some(gpu));
    assert_eq!(e.system.vram_centi_percent, Some(4200));
    // A later system sample without a due GPU probe reuses the cache
    // verbatim, never resetting it to empty.
    e.apply_system_sample(2000, host(), None);
    assert_eq!(e.system.vram_centi_percent, Some(4200));
    assert!(!e.gpu_due(4999));
    assert!(e.gpu_due(5000));
}

#[test]
fn gpu_table_attaches_vram_to_entities() {
    let mut e = engine();
    let gpu = GpuSample {
        vram_centi_percent: Some(1000),
        table: vec![("id-a".to_string(), 512)],
    };
    e.apply_system_sample(0, host(), Some(gpu));
    e.apply_list_refresh(
        0,
        vec![entity("a", ContainerStatus::Running), entity("b", ContainerStatus::Running)],
        &vec![Some(metrics(1, 1)), Some(metrics(2, 2))],
    );
    assert_eq!(e.containers[0].stats.as_ref().unwrap().vram_usage_mb, Some(512));
    assert_eq!(e.containers[1].stats.as_ref().unwrap().vram_usage_mb, None);
}

#[test]
fn system_sample_computes_percentages() {
    let mut e = engine();
    e.apply_system_sample(0, host(), None);
    // 1 GiB of 4 GiB = 25% = 2500 hundredths; 10 of 100 bytes = 10%.
    assert_eq!(e.system.memory_centi_percent, 2500);
    assert_eq!(e.system.disk_centi_percent, 1000);
    assert_eq!(e.system.cpu_centi_percent, 1234);
    assert_eq!(e.system.vram_centi_percent, None);
}

#[test]
fn navigation_skips_headers_and_wraps() {
    let mut e = engine();
    e.cycle_status_filter();  // All -> Groups
    assert_eq!(e.status_filter, StatusFilter::Groups);
    let mut a = entity("a", ContainerStatus::Running);
    a.group = Some("g".to_string());
    let mut b = entity("b", ContainerStatus::Running);
    b.group = Some("h".to_string());
    e.apply_list_refresh(0, vec![a, b], &vec![None, None]);
    // Rows: Header(g), a, Header(h), b. The cursor starts on the first
    // entity row and navigation never lands on a header.
    assert_eq!(e.list.selected, Some(1));
    e.select_next();
    assert_eq!(e.list.selected, Some(3));
    e.select_next();  // wraps past the end back to the first entity
    assert_eq!(e.list.selected, Some(1));
    e.select_previous();  // wraps backwards to the last entity
    assert_eq!(e.list.selected, Some(3));
    e.select_top();
    assert_eq!(e.list.selected, Some(1));
    e.select_bottom();
    assert_eq!(e.list.selected, Some(3));
    assert_eq!(e.selected_container().unwrap().name, "b");
}

#[test]
fn unset_selection_moves_up_to_first_row() {
    let mut e = engine();
    e.apply_list_refresh(
        0,
        vec![entity("a", ContainerStatus::Running), entity("b", ContainerStatus::Running)],
        &vec![None, None],
    );
    e.list.selected = None;
    e.select_previous();
    assert_eq!(e.list.selected, Some(0));
}

#[test]
fn selection_follows_name_across_list_replacement() {
    let mut e = engine();
    e.apply_list_refresh(
        0,
        vec![entity("a", ContainerStatus::Running), entity("b", ContainerStatus::Running)],
        &vec![None, None],
    );
    e.select_next();
    assert_eq!(e.selected_container().unwrap().name, "b");
    // A refresh that prepends a new entity shifts the rows; the selection
    // follows the name.
    e.apply_list_refresh(
        3000,
        vec![
            entity("0-new", ContainerStatus::Running),
            entity("a", ContainerStatus::Running),
            entity("b", ContainerStatus::Running),
        ],
        &vec![None, None, None],
    );
    assert_eq!(e.selected_container().unwrap().name, "b");
}

#[test]
fn filter_typing_reprojects() {
    let mut e = engine();
    e.apply_list_refresh(
        0,
        vec![entity("web", ContainerStatus::Running), entity("db", ContainerStatus::Running)],
        &vec![None, None],
    );
    e.filter_activate();
    e.filter_type_char('d');
    assert_eq!(e.rows.len(), 1);
    e.filter_backspace();
    assert_eq!(e.rows.len(), 2);
    e.filter_deactivate();
    assert!(!e.filter.active);
    assert_eq!(e.rows.len(), 2);
}
