use attrnav::navigator::App;
use attrnav::navigator::ListOrValue;
use attrnav::path::StartupError;

fn root_app() -> App {
    App::new(
        b"flake#".to_vec(),
        vec![b"packages".to_vec(), b"devShells".to_vec()],
    )
}

#[test]
fn new_selects_first_child_and_derives_preview_path() {
    let app = root_app();
    assert_eq!(app.current_path, b"flake#".to_vec());
    assert_eq!(app.current_items.cursor, Some(0));
    assert_eq!(app.current_selected, b"packages".to_vec());
    assert_eq!(app.preview_path, b"flake#.packages".to_vec());
    assert_eq!(app.preview_items, ListOrValue::List(Vec::new()));
}

#[test]
fn next_moves_selection_and_wraps() {
    let mut app = root_app();
    app.next();
    assert_eq!(app.current_selected, b"devShells".to_vec());
    assert_eq!(app.preview_path, b"flake#.devShells".to_vec());
    app.next();
    assert_eq!(app.current_selected, b"packages".to_vec());
    assert_eq!(app.preview_path, b"flake#.packages".to_vec());
}

#[test]
fn previous_wraps_to_the_last_child() {
    let mut app = root_app();
    app.previous();
    assert_eq!(app.current_selected, b"devShells".to_vec());
    assert_eq!(app.preview_path, b"flake#.devShells".to_vec());
}

#[test]
fn step_in_descends_into_internal_preview() {
    let mut app = root_app();
    app.set_preview_list(vec![b"x86_64-linux".to_vec()]);
    app.step_in();
    assert_eq!(app.current_path, b"flake#.packages".to_vec());
    assert_eq!(app.current_items.items, vec![b"x86_64-linux".to_vec()]);
    assert_eq!(app.current_items.cursor, Some(0));
    assert_eq!(app.current_selected, b"x86_64-linux".to_vec());
    assert_eq!(app.preview_path, b"flake#.packages.x86_64-linux".to_vec());
}

#[test]
fn step_in_on_leaf_preview_changes_nothing() {
    let mut app = root_app();
    app.set_preview_value(b"\"a value\"".to_vec());
    let path_before = app.current_path.clone();
    let items_before = app.current_items.items.clone();
    let cursor_before = app.current_items.cursor;
    let selected_before = app.current_selected.clone();
    let preview_path_before = app.preview_path.clone();
    app.step_in();
    assert_eq!(app.current_path, path_before);
    assert_eq!(app.current_items.items, items_before);
    assert_eq!(app.current_items.cursor, cursor_before);
    assert_eq!(app.current_selected, selected_before);
    assert_eq!(app.preview_path, preview_path_before);
    assert_eq!(app.preview_items, ListOrValue::Value(b"\"a value\"".to_vec()));
}

#[test]
fn step_in_on_empty_list_preview_changes_nothing() {
    let mut app = root_app();
    let path_before = app.current_path.clone();
    app.step_in();
    assert_eq!(app.current_path, path_before);
    assert_eq!(app.current_selected, b"packages".to_vec());
}

#[test]
fn step_out_strips_the_last_segment() {
    let mut app = root_app();
    app.set_preview_list(vec![b"x86_64-linux".to_vec()]);
    app.step_in();
    app.step_out();
    assert_eq!(app.current_path, b"flake#".to_vec());
}

#[test]
fn step_out_at_root_keeps_path_and_resets_cursor() {
    let mut app = root_app();
    app.next();
    assert_eq!(app.current_items.cursor, Some(1));
    app.step_out();
    assert_eq!(app.current_path, b"flake#".to_vec());
    let fresh = vec![b"packages".to_vec(), b"devShells".to_vec()];
    app.set_current_items(fresh.clone());
    assert_eq!(app.current_items.items, fresh);
    assert_eq!(app.current_items.cursor, Some(0));
    assert_eq!(app.current_selected, b"packages".to_vec());
    assert_eq!(app.preview_path, b"flake#.packages".to_vec());
}

#[test]
fn step_out_keeps_a_dotted_root_reference() {
    let mut app = App::new(b"github:o/r.git#".to_vec(), vec![b"packages".to_vec()]);
    app.step_out();
    assert_eq!(app.current_path, b"github:o/r.git#".to_vec());
    app.set_preview_list(vec![b"default".to_vec()]);
    app.step_in();
    assert_eq!(app.current_path, b"github:o/r.git#.packages".to_vec());
    app.step_out();
    assert_eq!(app.current_path, b"github:o/r.git#".to_vec());
}

#[test]
fn try_new_rejects_a_childless_root() {
    let r = App::try_new(b"flake#".to_vec(), Vec::new());
    assert!(matches!(r, Err(StartupError::RootHasNoChildren)));
}

#[test]
fn try_new_builds_the_navigator_on_children() {
    let r = App::try_new(b"flake#".to_vec(), vec![b"packages".to_vec()]);
    let app = r.expect("a rooted navigator");
    assert_eq!(app.current_path, b"flake#".to_vec());
    assert_eq!(app.current_selected, b"packages".to_vec());
    assert_eq!(app.preview_path, b"flake#.packages".to_vec());
}

#[test]
fn empty_listing_selects_the_sentinel() {
    let mut app = root_app();
    app.set_current_items(Vec::new());
    assert_eq!(app.current_items.cursor, None);
    assert_eq!(app.current_selected, b"none".to_vec());
    assert_eq!(app.preview_path, b"flake#.none".to_vec());
}

#[test]
fn preview_setters_replace_only_the_preview() {
    let mut app = root_app();
    app.set_preview_list(vec![b"a".to_vec()]);
    assert_eq!(app.preview_items, ListOrValue::List(vec![b"a".to_vec()]));
    assert_eq!(app.current_selected, b"packages".to_vec());
    app.set_preview_value(b"Error: boom".to_vec());
    assert_eq!(app.preview_items, ListOrValue::Value(b"Error: boom".to_vec()));
    assert_eq!(app.preview_path, b"flake#.packages".to_vec());
}

#[test]
fn end_to_end_navigation_over_a_small_tree() {
    let mut app = root_app();
    assert_eq!(app.current_selected, b"packages".to_vec());
    app.next();
    assert_eq!(app.current_selected, b"devShells".to_vec());
    app.next();
    assert_eq!(app.current_selected, b"packages".to_vec());
    app.set_preview_list(vec![b"x86_64-linux".to_vec()]);
    app.step_in();
    assert_eq!(app.current_path, b"flake#.packages".to_vec());
    assert_eq!(app.current_items.items.len(), 1);
    assert_eq!(app.current_selected, b"x86_64-linux".to_vec());
}
