use kanban::KanbanError;
use kanban::args::{default_direction, Direction};
use kanban::card::{load_card, Card};
use kanban::locator::{find_current_workspace_root, find_kanban, Ancestor};
use kanban::notes::load_notes;
use kanban::utils::get_editor;
use kanban::workspace::{
    default_board_config, find_current_workspace, init_workspace, workspaces, Workspace,
};

fn ancestor(path: &str, has_marker: bool) -> Ancestor {
    Ancestor { path: path.to_string(), has_marker }
}

#[test]
fn discovery_finds_the_nearest_marked_ancestor() {
    let chain = vec![
        ancestor("/a/b/c", false),
        ancestor("/a/b", false),
        ancestor("/a", true),
        ancestor("/", false),
    ];
    assert_eq!(find_current_workspace_root(&chain).unwrap(), "/a");
    assert_eq!(find_kanban(&chain).unwrap(), "/a/.kanban");
}

#[test]
fn discovery_fails_outside_any_workspace() {
    let chain = vec![ancestor("/x/y", false), ancestor("/x", false), ancestor("/", false)];
    assert!(matches!(
        find_current_workspace_root(&chain),
        Err(KanbanError::WorkspaceNotFound)
    ));
    assert!(matches!(find_kanban(&chain), Err(KanbanError::WorkspaceNotFound)));
}

#[test]
fn discovery_prefers_the_closest_marker() {
    let chain = vec![ancestor("/a/b", true), ancestor("/a", true)];
    assert_eq!(find_current_workspace_root(&chain).unwrap(), "/a/b");
}

#[test]
fn notes_split_on_blank_lines() {
    let text = "one\ntwo\n\nthree\n\n\nfour\n";
    let notes = load_notes("/ws/notes.md", text);
    assert_eq!(notes.len(), 3);
    assert_eq!(notes[0].text, "one\ntwo\n");
    assert_eq!(notes[0].line, 2);
    assert_eq!(notes[0].path, "/ws/notes.md");
    assert_eq!(notes[1].text, "three\n");
    assert_eq!(notes[1].line, 4);
    assert_eq!(notes[2].text, "four\n");
    assert_eq!(notes[2].line, 7);
}

#[test]
fn notes_of_an_empty_file_are_none() {
    assert_eq!(load_notes("/ws/notes.md", "").len(), 0);
    assert_eq!(load_notes("/ws/notes.md", "\n\n\n").len(), 0);
}

#[test]
fn workspace_new_collects_name_board_and_notes() {
    let w = Workspace::new(
        "/home/u/work/proj".to_string(),
        42,
        Some(default_board_config()),
        Some("a note\n"),
    );
    assert_eq!(w.root, "/home/u/work/proj");
    assert_eq!(w.name, "proj");
    assert_eq!(w.updated_at, 42);
    assert!(w.board.is_some());
    assert_eq!(w.board.as_ref().unwrap().columns.len(), 3);
    assert_eq!(w.notes.len(), 1);
    assert_eq!(w.notes[0].path, "/home/u/work/proj/notes.md");
}

#[test]
fn workspace_without_config_has_no_board() {
    let w = Workspace::new("/home/u/work/proj".to_string(), 1, None, None);
    assert!(w.board.is_none());
    assert_eq!(w.notes.len(), 0);
    let w2 = Workspace::new("/home/u/work/proj".to_string(), 1, Some("this is no board config"), None);
    assert!(w2.board.is_none());
}

#[test]
fn summary_lists_flagged_columns_and_three_notes() {
    let notes_text = "note one\n\nnote two\n\nnote three\n\nnote four\n";
    let w = Workspace::new(
        "/home/u/work/proj".to_string(),
        1,
        Some(default_board_config()),
        Some(notes_text),
    );
    let alpha = load_card(
        "/p/a.md",
        "---\n---\n# Alpha\n---\nbody\n",
    )
    .unwrap();
    let unnamed = Card { file_path: "/p/u.md".to_string(), headline: None, last_moved_at: None };
    let cards = vec![vec![alpha, unnamed], vec![], vec![]];
    let s = w.summary(&cards);
    let expected = "proj:\n  To Do:\n    Alpha\n    <missing headline>\n  In Progress:\n\n  Notes:\n    note one\n    \n    note two\n    \n    note three\n    ";
    assert_eq!(s, expected);
}

#[test]
fn summary_without_board_is_just_the_name() {
    let w = Workspace::new("/home/u/work/proj".to_string(), 1, None, None);
    let s = w.summary(&vec![]);
    assert_eq!(s, "proj:\n");
}

#[test]
fn workspaces_sort_most_recent_first() {
    let mk = |name: &str, t: u64| {
        Workspace::new(format!("/home/u/work/{}", name), t, None, None)
    };
    let sorted = workspaces(vec![mk("a", 5), mk("b", 9), mk("c", 7)]);
    assert_eq!(sorted.len(), 3);
    assert_eq!(sorted[0].name, "b");
    assert_eq!(sorted[1].name, "c");
    assert_eq!(sorted[2].name, "a");
    assert!(sorted[0].updated_at >= sorted[1].updated_at);
    assert!(sorted[1].updated_at >= sorted[2].updated_at);
}

#[test]
fn current_workspace_is_the_direct_child_of_the_parent_dir() {
    assert_eq!(
        find_current_workspace("/home/u/work", "/home/u/work/proj/src/deep"),
        Some("/home/u/work/proj".to_string())
    );
    assert_eq!(
        find_current_workspace("/home/u/work", "/home/u/work/proj"),
        Some("/home/u/work/proj".to_string())
    );
    assert_eq!(find_current_workspace("/home/u/work", "/home/u/work"), None);
    assert_eq!(find_current_workspace("/home/u/work", "/elsewhere/x"), None);
    assert_eq!(find_current_workspace("/home/u/work", "/home/u/workshop/x"), None);
}

#[test]
fn init_picks_the_workspace_path() {
    assert_eq!(
        init_workspace("/home/u/work", Some("newproj"), "/anywhere").unwrap(),
        "/home/u/work/newproj"
    );
    assert_eq!(
        init_workspace("/home/u/work", None, "/home/u/work/here").unwrap(),
        "/home/u/work/here"
    );
    assert!(matches!(
        init_workspace("/home/u/work", None, "/home/u/other/here"),
        Err(KanbanError::InitFailed)
    ));
    assert!(matches!(
        init_workspace("/home/u/work", None, "/home/u/work/a/b"),
        Err(KanbanError::InitFailed)
    ));
}

#[test]
fn editor_prefers_visual() {
    assert_eq!(
        get_editor(Some("vim".to_string()), Some("nano".to_string())),
        Some("vim".to_string())
    );
    assert_eq!(get_editor(None, Some("nano".to_string())), Some("nano".to_string()));
    assert_eq!(get_editor(None, None), None);
}

#[test]
fn moves_default_to_the_right() {
    assert!(matches!(default_direction(), Direction::Right));
}

#[test]
fn errors_describe_themselves() {
    assert_eq!(KanbanError::WorkspaceNotFound.describe(), "no workspace found");
    assert_eq!(
        KanbanError::MoveFailed("disk full".to_string()).describe(),
        "failed to move card: disk full"
    );
}
