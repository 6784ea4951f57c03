use boxtop::entity::ContainerInfo;
use boxtop::projection::{filter_indices, first_entity_row, project_flat, project_grouped,
    repair_cursor, ContainerList, Row};
use boxtop::status::{ContainerStatus, StatusFilter};

fn entity(name: &str, status: ContainerStatus, group: Option<&str>) -> ContainerInfo {
    ContainerInfo {
        id: format!("id-{}", name),
        name: name.to_string(),
        image: "img".to_string(),
        status,
        is_cli: false,
        port: None,
        ports: Vec::new(),
        stats: None,
        created: None,
        group: group.map(|g| g.to_string()),
    }
}

#[test]
fn filter_matches_substring_ignoring_case() {
    let ents = vec![
        entity("Web-1", ContainerStatus::Running, None),
        entity("db", ContainerStatus::Running, None),
        entity("web-2", ContainerStatus::Exited, None),
    ];
    let idxs = filter_indices(&ents, "WEB", StatusFilter::All);
    assert_eq!(idxs, vec![0, 2]);
}

#[test]
fn empty_query_matches_everything() {
    let ents = vec![
        entity("a", ContainerStatus::Running, None),
        entity("b", ContainerStatus::Dead, None),
    ];
    let idxs = filter_indices(&ents, "", StatusFilter::All);
    assert_eq!(idxs, vec![0, 1]);
}

#[test]
fn paused_is_not_running_but_is_stopped() {
    // "Stopped" means "not running", not merely "exited".
    let ents = vec![entity("p", ContainerStatus::Paused, None)];
    assert_eq!(filter_indices(&ents, "", StatusFilter::Running), Vec::<usize>::new());
    assert_eq!(filter_indices(&ents, "", StatusFilter::Stopped), vec![0]);
}

#[test]
fn running_filter_keeps_only_running() {
    let ents = vec![
        entity("a", ContainerStatus::Running, None),
        entity("b", ContainerStatus::Exited, None),
        entity("c", ContainerStatus::Created, None),
        entity("d", ContainerStatus::Running, None),
    ];
    assert_eq!(filter_indices(&ents, "", StatusFilter::Running), vec![0, 3]);
    assert_eq!(filter_indices(&ents, "", StatusFilter::Stopped), vec![1, 2]);
}

#[test]
fn grouped_projection_suppresses_empty_group_headers() {
    // Group A keeps two visible entities; group B is emptied by the status
    // filter. The projection holds exactly one header, for A, and none for B.
    let ents = vec![
        entity("a1", ContainerStatus::Running, Some("A")),
        entity("a2", ContainerStatus::Running, Some("A")),
        entity("b1", ContainerStatus::Exited, Some("B")),
    ];
    let idxs = filter_indices(&ents, "", StatusFilter::Running);
    assert_eq!(idxs, vec![0, 1]);
    let rows = project_grouped(&ents, idxs);
    let mut headers = Vec::new();
    let mut entities = Vec::new();
    for row in &rows {
        match row {
            Row::Header(i) => headers.push(*i),
            Row::Entity(i) => entities.push(*i),
        }
    }
    assert_eq!(headers.len(), 1);
    assert_eq!(ents[headers[0]].group.as_deref(), Some("A"));
    assert_eq!(entities, vec![0, 1]);
}

#[test]
fn grouped_projection_partitions_by_group() {
    let ents = vec![
        entity("a", ContainerStatus::Running, Some("x")),
        entity("b", ContainerStatus::Running, Some("y")),
        entity("c", ContainerStatus::Running, Some("x")),
    ];
    let idxs = filter_indices(&ents, "", StatusFilter::Groups);
    let rows = project_grouped(&ents, idxs);
    // Group x first (first encountered), then group y.
    let shape: Vec<(bool, usize)> = rows
        .iter()
        .map(|r| match r {
            Row::Header(i) => (true, *i),
            Row::Entity(i) => (false, *i),
        })
        .collect();
    assert_eq!(shape, vec![(true, 0), (false, 0), (false, 2), (true, 1), (false, 1)]);
}

#[test]
fn ungrouped_entities_form_their_own_block() {
    let ents = vec![
        entity("a", ContainerStatus::Running, None),
        entity("b", ContainerStatus::Running, Some("g")),
    ];
    let idxs = filter_indices(&ents, "", StatusFilter::Groups);
    let rows = project_grouped(&ents, idxs);
    assert_eq!(rows.len(), 4);
    assert!(matches!(rows[0], Row::Header(0)));
    assert!(matches!(rows[1], Row::Entity(0)));
    assert!(matches!(rows[2], Row::Header(1)));
    assert!(matches!(rows[3], Row::Entity(1)));
}

#[test]
fn cursor_stays_on_selected_name_when_filter_narrows() {
    // "web-1" is selected at row 2; a narrowing filter moves it to row 0 of
    // the new projection, and the cursor follows the name, not the row.
    let ents = vec![
        entity("api", ContainerStatus::Running, None),
        entity("db", ContainerStatus::Running, None),
        entity("web-1", ContainerStatus::Running, None),
    ];
    let all_rows = project_flat(filter_indices(&ents, "", StatusFilter::All));
    let selected = Some("web-1".to_string());
    let before = repair_cursor(&ents, &all_rows, &selected).unwrap();
    assert_eq!(before, 2);

    let narrowed = project_flat(filter_indices(&ents, "web", StatusFilter::All));
    assert_eq!(narrowed.len(), 1);
    let after = repair_cursor(&ents, &narrowed, &selected).unwrap();
    match narrowed[after] {
        Row::Entity(i) => assert_eq!(ents[i].name, "web-1"),
        Row::Header(_) => panic!("cursor landed on a header"),
    }
}

#[test]
fn cursor_clamps_to_first_entity_when_selection_vanishes() {
    let ents = vec![
        entity("a", ContainerStatus::Running, Some("g")),
        entity("b", ContainerStatus::Running, Some("g")),
    ];
    let rows = project_grouped(&ents, filter_indices(&ents, "", StatusFilter::Groups));
    // Row 0 is the header; the clamp must skip it.
    let sel = Some("gone".to_string());
    let cursor = repair_cursor(&ents, &rows, &sel).unwrap();
    assert!(matches!(rows[cursor], Row::Entity(0)));
    assert_eq!(cursor, 1);
}

#[test]
fn unset_cursor_moves_to_first_selectable_row_either_way() {
    // With nothing selected yet, both Up and Down land on the first
    // selectable row; a leading header is skipped.
    let ents = vec![
        entity("a", ContainerStatus::Running, Some("g")),
        entity("b", ContainerStatus::Running, Some("g")),
    ];
    let rows = project_grouped(&ents, filter_indices(&ents, "", StatusFilter::Groups));
    let mut up = ContainerList::new();
    up.previous(&rows);
    assert_eq!(up.selected(), Some(1));
    let mut down = ContainerList::new();
    down.next(&rows);
    assert_eq!(down.selected(), Some(1));
}

#[test]
fn empty_projection_leaves_cursor_unset() {
    let ents = vec![entity("a", ContainerStatus::Exited, None)];
    let rows = project_flat(filter_indices(&ents, "", StatusFilter::Running));
    assert!(repair_cursor(&ents, &rows, &None).is_none());
    assert!(first_entity_row(&rows).is_none());
}
