use boxtop::action::{runtime_command, Action, RuntimeCommand};
use boxtop::config::ProjectManifest;
use boxtop::status::StatusFilter;
use boxtop::viewstate::{CopyDirection, CopyFilesModal, CreateContainerForm, CreateMode,
    ExecModal, FilterBar, ListViewMode, LogsView, ProcessesModal, RenameModal};

#[test]
fn filter_bar_matches_case_insensitively() {
    let mut f = FilterBar::new();
    assert!(f.matches("anything"));
    f.activate();
    f.type_char('W');
    f.type_char('e');
    f.type_char('b');
    assert!(f.matches("my-WEB-1"));
    assert!(f.matches("web"));
    assert!(!f.matches("db"));
    f.backspace();
    assert_eq!(f.query, "We");
    f.deactivate();
    assert!(f.query.is_empty());
    assert!(!f.active);
}

#[test]
fn create_form_field_cycle_and_input() {
    let mut form = CreateContainerForm::new();
    assert!(!form.is_valid());
    form.type_char('n');
    form.next_field();
    form.type_char('i');
    assert_eq!(form.name, "n");
    assert_eq!(form.image, "i");
    assert!(form.is_valid());
    for _ in 0..6 {
        form.next_field();
    }
    assert_eq!(form.selected_field, 0);
    form.prev_field();
    assert_eq!(form.selected_field, 6);
}

#[test]
fn create_form_builds_runtime_spec() {
    let mut form = CreateContainerForm::new();
    for c in "box".chars() {
        form.type_char(c);
    }
    form.next_field();
    for c in "img:1".chars() {
        form.type_char(c);
    }
    form.next_field();
    for c in "8080".chars() {
        form.type_char(c);
    }
    form.next_field();
    for c in "80".chars() {
        form.type_char(c);
    }
    form.next_field();
    for c in "A=1, B=2".chars() {
        form.type_char(c);
    }
    form.next_field();
    form.next_field();
    for c in "sleep infinity".chars() {
        form.type_char(c);
    }
    let spec = form.build_create_spec();
    assert_eq!(spec.name, "box");
    assert_eq!(spec.image, "img:1");
    assert_eq!(spec.port_host, Some(8080));
    assert_eq!(spec.port_container, Some(80));
    assert_eq!(spec.env_vars, vec!["A=1", "B=2"]);
    assert!(spec.volumes.is_empty());
    assert_eq!(spec.command, Some(vec!["sleep".to_string(), "infinity".to_string()]));
}

#[test]
fn create_spec_rejects_bad_ports() {
    let mut form = CreateContainerForm::new();
    form.next_field();
    form.next_field();
    for c in "99999".chars() {
        form.type_char(c);
    }
    let spec = form.build_create_spec();
    assert_eq!(spec.port_host, None);
    assert_eq!(spec.port_container, None);
    assert_eq!(spec.command, None);
}

#[test]
fn image_selector_wraps() {
    let mut form = CreateContainerForm::new();
    form.available_images = vec!["a".to_string(), "b".to_string()];
    form.mode = CreateMode::ImageSelect;
    form.next_image();
    assert_eq!(form.selected_image_idx, 1);
    form.next_image();
    assert_eq!(form.selected_image_idx, 0);
    form.prev_image();
    assert_eq!(form.selected_image_idx, 1);
    form.select_image();
    assert_eq!(form.image, "b");
    assert_eq!(form.mode, CreateMode::Form);
}

#[test]
fn exec_modal_shell_selection() {
    let mut m = ExecModal::new("web".to_string());
    assert_eq!(m.selected_shell(), "/bin/bash");
    m.previous();
    assert_eq!(m.selected_shell(), "/bin/ash");
    m.next();
    assert_eq!(m.selected_shell(), "/bin/bash");
}

#[test]
fn rename_modal_validates() {
    let mut m = RenameModal::new("web".to_string());
    assert!(!m.is_valid());
    m.handle_char('2');
    assert!(m.is_valid());
    assert_eq!(m.new_name, "web2");
    m.handle_char(' ');
    assert_eq!(m.new_name, "web2");
    m.handle_backspace();
    assert_eq!(m.new_name, "web");
    assert!(!m.is_valid());
}

#[test]
fn copy_modal_fields_and_direction() {
    let mut m = CopyFilesModal::new("web".to_string());
    assert_eq!(m.direction, CopyDirection::FromContainer);
    assert!(!m.is_valid());
    m.handle_char('/');
    m.next_field();
    m.handle_char('/');
    assert!(m.is_valid());
    m.toggle_direction();
    assert_eq!(m.direction, CopyDirection::ToContainer);
    m.prev_field();
    m.prev_field();
    assert_eq!(m.active_field, 0);
}

#[test]
fn processes_modal_scroll_bounds() {
    let rows = vec![vec!["1".to_string()], vec!["2".to_string()]];
    let mut m = ProcessesModal::new("web".to_string(), rows);
    m.scroll_up();
    assert_eq!(m.scroll, 0);
    m.scroll_down();
    assert_eq!(m.scroll, 1);
    m.scroll_down();
    assert_eq!(m.scroll, 1);
}

#[test]
fn logs_view_follow_and_scroll() {
    let mut v = LogsView::new();
    assert!(v.follow);
    v.update_logs(100, 20);
    assert_eq!(v.scroll, 80);
    v.scroll_up(5);
    assert_eq!(v.scroll, 75);
    assert!(!v.follow);
    v.scroll_down(1000, 100);
    assert_eq!(v.scroll, 100);
    v.top();
    assert_eq!(v.scroll, 0);
    v.bottom(100);
    assert!(v.follow);
    assert_eq!(v.scroll, 100);
}

#[test]
fn list_view_mode_cycles() {
    assert_eq!(ListViewMode::Stats.cycle_right(), ListViewMode::Network);
    assert_eq!(ListViewMode::Network.cycle_right(), ListViewMode::Details);
    assert_eq!(ListViewMode::Details.cycle_right(), ListViewMode::Stats);
    assert_eq!(ListViewMode::Stats.cycle_left(), ListViewMode::Details);
}

#[test]
fn actions_map_to_exactly_one_runtime_command() {
    let start = runtime_command(&Action::StartContainer("a".to_string()));
    assert!(matches!(start, Some(RuntimeCommand::Start(n)) if n == "a"));
    let rename = runtime_command(
        &Action::RenameContainer("a".to_string(), "b".to_string()),
    );
    assert!(matches!(rename, Some(RuntimeCommand::Rename(x, y)) if x == "a" && y == "b"));
    assert!(runtime_command(&Action::Refresh).is_none());
    assert!(runtime_command(&Action::Up).is_none());
    let pause = runtime_command(&Action::PauseContainer("p".to_string()));
    assert!(matches!(pause, Some(RuntimeCommand::Pause(n)) if n == "p"));
}

#[test]
fn manifest_cli_classification() {
    let mut m = ProjectManifest {
        project: "p".to_string(),
        image: None,
        build: None,
        env: Vec::new(),
        port: None,
        route: None,
        gpu: false,
        volumes: Vec::new(),
        devices: Vec::new(),
        command: None,
    };
    assert!(m.is_cli());
    m.port = Some(80);
    assert!(!m.is_cli());
    m.command = Some("sleep infinity".to_string());
    assert!(m.is_cli());
    m.command = Some("serve".to_string());
    assert!(!m.is_cli());
}

#[test]
fn status_filter_cycles_through_all_modes() {
    let f = StatusFilter::All;
    let g = f.cycle();
    assert_eq!(g, StatusFilter::Groups);
    assert_eq!(g.cycle(), StatusFilter::Running);
    assert_eq!(g.cycle().cycle(), StatusFilter::Stopped);
    assert_eq!(g.cycle().cycle().cycle(), StatusFilter::All);
    assert_eq!(StatusFilter::Running.as_str(), "Running");
}
