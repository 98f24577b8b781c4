use kanban::KanbanError;
use kanban::args::Direction;
use kanban::board::{load_board, MoveOutcome};
use kanban::card::{load_card, CardFile};
use kanban::workspace::default_board_config;

fn card_text(headline: &str, ts: &str) -> String {
    format!(
        "---\nlast_moved_at = \"{}\"\n---\n# {}\n---\n\nBody text.\n",
        ts, headline
    )
}

fn card_file(dir: &str, name: &str, headline: &str, ts: &str) -> CardFile {
    CardFile {
        path: format!("{}/{}.md", dir, name),
        contents: card_text(headline, ts),
    }
}

#[test]
fn test_load_board() {
    let board = load_board("/ws", Some(default_board_config())).unwrap();
    assert_eq!(board.columns.len(), 3);
    assert_eq!(board.columns[0].name, "To Do");
    assert_eq!(board.columns[1].name, "In Progress");
    assert_eq!(board.columns[2].name, "Done");
}

#[test]
fn test_get_cards() {
    let board = load_board("/ws", Some(default_board_config())).unwrap();
    let cards = board.columns[0].get_cards(&vec![]);
    assert!(cards.is_ok());
}

#[test]
fn columns_resolve_under_marker_directory() {
    let board = load_board("/ws", Some(default_board_config())).unwrap();
    assert_eq!(board.path.as_deref(), Some("/ws"));
    assert_eq!(board.columns[0].path.as_deref(), Some("/ws/.kanban/to_do"));
    assert_eq!(
        board.columns[1].path.as_deref(),
        Some("/ws/.kanban/in_progress")
    );
    assert_eq!(board.columns[2].path.as_deref(), Some("/ws/.kanban/done"));
    assert_eq!(board.columns[0].dir_name, "to_do");
    assert_eq!(board.columns[0].limit, Some(7));
    assert_eq!(board.columns[0].show_headlines_in_summary, Some(true));
    assert_eq!(board.columns[2].display, Some(10));
    assert_eq!(board.columns[2].sort_by.as_deref(), Some("last_moved_at"));
    assert_eq!(board.columns[2].sort_order.as_deref(), Some("desc"));
    assert_eq!(board.columns[2].show_headlines_in_summary, None);
}

#[test]
fn board_config_errors() {
    assert!(matches!(
        load_board("/ws", None),
        Err(KanbanError::ConfigNotFound)
    ));
    assert!(matches!(
        load_board("/ws", Some("not a kanban config")),
        Err(KanbanError::ConfigParseError)
    ));
    // a known key with an ill-typed value
    assert!(matches!(
        load_board("/ws", Some("[[columns]]\nname = \"A\"\ndir_name = \"a\"\nlimit = \"x\"\n")),
        Err(KanbanError::ConfigParseError)
    ));
    // a column without its required storage key
    assert!(matches!(
        load_board("/ws", Some("[[columns]]\nname = \"A\"\n")),
        Err(KanbanError::ConfigParseError)
    ));
    // two columns sharing a storage key
    let dup = "[[columns]]\nname = \"A\"\ndir_name = \"x\"\n[[columns]]\nname = \"B\"\ndir_name = \"x\"\n";
    assert!(matches!(
        load_board("/ws", Some(dup)),
        Err(KanbanError::ConfigParseError)
    ));
    // a count too large for the field
    assert!(matches!(
        load_board("/ws", Some("[[columns]]\nname = \"A\"\ndir_name = \"a\"\nlimit = 99999999999\n")),
        Err(KanbanError::ConfigParseError)
    ));
}

#[test]
fn board_config_ignores_unknown_keys_and_tables() {
    let conf = "# a comment\n\n[[columns]]\nname = \"A\"\ndir_name = \"a\"\ncolor = \"red\"\n[events]\nwhatever = 3\n[[columns]]\nname = \"B\"\ndir_name = \"b\"\n";
    let board = load_board("/ws", Some(conf)).unwrap();
    assert_eq!(board.columns.len(), 2);
    assert_eq!(board.columns[0].name, "A");
    assert_eq!(board.columns[1].name, "B");
}

#[test]
fn find_with_empty_prefix_returns_every_card_once() {
    let board = load_board("/ws", Some(default_board_config())).unwrap();
    let ts = "2023-05-01T10:00:00+00:00";
    let files = vec![
        vec![
            card_file("/ws/.kanban/to_do", "alpha", "Alpha", ts),
            card_file("/ws/.kanban/to_do", "beta", "Beta", ts),
        ],
        vec![card_file("/ws/.kanban/in_progress", "gamma", "Gamma", ts)],
        vec![],
    ];
    let cards: Vec<Vec<kanban::card::Card>> = files
        .iter()
        .map(|col| kanban::card::load_column_cards(col))
        .collect();
    let found = board.find_cards_by_headline_prefix(&cards, "");
    assert_eq!(found.len(), 3);
    assert_eq!(found[0].card.headline.as_deref(), Some("Alpha"));
    assert_eq!(found[0].column_position, 0);
    assert_eq!(found[1].card.headline.as_deref(), Some("Beta"));
    assert_eq!(found[1].column_position, 0);
    assert_eq!(found[2].card.headline.as_deref(), Some("Gamma"));
    assert_eq!(found[2].column_position, 1);
}

#[test]
fn find_matches_prefix_case_sensitively() {
    let board = load_board("/ws", Some(default_board_config())).unwrap();
    let ts = "2023-05-01T10:00:00+00:00";
    let files = vec![
        vec![
            card_file("/ws/.kanban/to_do", "alpha", "Alpha", ts),
            card_file("/ws/.kanban/to_do", "aleph", "Aleph", ts),
        ],
        vec![],
        vec![],
    ];
    let cards: Vec<Vec<kanban::card::Card>> = files
        .iter()
        .map(|col| kanban::card::load_column_cards(col))
        .collect();
    assert_eq!(board.find_cards_by_headline_prefix(&cards, "Al").len(), 2);
    assert_eq!(board.find_cards_by_headline_prefix(&cards, "Alp").len(), 1);
    assert_eq!(board.find_cards_by_headline_prefix(&cards, "alp").len(), 0);
}

#[test]
fn move_left_from_leftmost_column_changes_nothing() {
    let board = load_board("/ws", Some(default_board_config())).unwrap();
    let ts = "2023-05-01T10:00:00+00:00";
    let files = vec![
        vec![card_file("/ws/.kanban/to_do", "alpha", "Alpha", ts)],
        vec![],
        vec![],
    ];
    let before: Vec<Vec<(String, String)>> = files
        .iter()
        .map(|c| c.iter().map(|f| (f.path.clone(), f.contents.clone())).collect())
        .collect();
    let (after, outcome) =
        board.move_card(files, "Alpha", Some(Direction::Left), 1_700_000_000);
    assert!(matches!(outcome, MoveOutcome::AtBoundary));
    let after_pairs: Vec<Vec<(String, String)>> = after
        .iter()
        .map(|c| c.iter().map(|f| (f.path.clone(), f.contents.clone())).collect())
        .collect();
    assert_eq!(after_pairs, before);
}

#[test]
fn move_right_from_rightmost_column_changes_nothing() {
    let board = load_board("/ws", Some(default_board_config())).unwrap();
    let ts = "2023-05-01T10:00:00+00:00";
    let files = vec![
        vec![],
        vec![],
        vec![card_file("/ws/.kanban/done", "alpha", "Alpha", ts)],
    ];
    let (after, outcome) =
        board.move_card(files, "Alpha", Some(Direction::Right), 1_700_000_000);
    assert!(matches!(outcome, MoveOutcome::AtBoundary));
    assert_eq!(after[2].len(), 1);
    assert_eq!(after[2][0].path, "/ws/.kanban/done/alpha.md");
}

#[test]
fn move_right_relocates_updates_timestamp_and_keeps_count() {
    let board = load_board("/ws", Some(default_board_config())).unwrap();
    let old_ts = "2023-05-01T10:00:00+00:00";
    let now: i64 = 1_700_000_000;
    let files = vec![
        vec![card_file("/ws/.kanban/to_do", "beta", "Beta", old_ts)],
        vec![card_file("/ws/.kanban/in_progress", "alpha", "Alpha", old_ts)],
        vec![],
    ];
    let total_before: usize = files.iter().map(|c| c.len()).sum();
    let (after, outcome) = board.move_card(files, "Alpha", Some(Direction::Right), now);
    match outcome {
        MoveOutcome::Moved {
            from_column,
            to_column,
            headline,
            old_path,
            new_path,
            new_content,
            ..
        } => {
            assert_eq!(from_column, 1);
            assert_eq!(to_column, 2);
            assert_eq!(headline.as_deref(), Some("Alpha"));
            assert_eq!(old_path, "/ws/.kanban/in_progress/alpha.md");
            assert_eq!(new_path, "/ws/.kanban/done/alpha.md");
            let moved = load_card(&new_path, &new_content).unwrap();
            assert_eq!(moved.headline.as_deref(), Some("Alpha"));
            // the timestamp moved forward with the move
            assert_eq!(moved.last_moved_at, Some(now));
            assert!(moved.last_moved_at.unwrap() >= 1_682_935_200);
        }
        other => panic!("expected a move, got {:?}", outcome_name(&other)),
    }
    let total_after: usize = after.iter().map(|c| c.len()).sum();
    assert_eq!(total_after, total_before);
    assert_eq!(after[1].len(), 0);
    assert_eq!(after[2].len(), 1);
    assert_eq!(after[2][0].path, "/ws/.kanban/done/alpha.md");
    // the untouched column is untouched
    assert_eq!(after[0].len(), 1);
    assert_eq!(after[0][0].path, "/ws/.kanban/to_do/beta.md");
}

#[test]
fn move_defaults_to_the_right() {
    let board = load_board("/ws", Some(default_board_config())).unwrap();
    let ts = "2023-05-01T10:00:00+00:00";
    let files = vec![
        vec![card_file("/ws/.kanban/to_do", "alpha", "Alpha", ts)],
        vec![],
        vec![],
    ];
    let (after, outcome) = board.move_card(files, "Alpha", None, 1_700_000_000);
    assert!(matches!(outcome, MoveOutcome::Moved { .. }));
    assert_eq!(after[1].len(), 1);
    assert_eq!(after[1][0].path, "/ws/.kanban/in_progress/alpha.md");
}

#[test]
fn ambiguous_prefix_refuses_to_move() {
    let board = load_board("/ws", Some(default_board_config())).unwrap();
    let ts = "2023-05-01T10:00:00+00:00";
    let files = vec![
        vec![
            card_file("/ws/.kanban/to_do", "alpha", "Alpha", ts),
            card_file("/ws/.kanban/to_do", "aleph", "Aleph", ts),
        ],
        vec![],
        vec![],
    ];
    let (after, outcome) = board.move_card(files, "Al", Some(Direction::Right), 1_700_000_000);
    match outcome {
        MoveOutcome::AmbiguousMatch { count } => assert_eq!(count, 2),
        other => panic!("expected ambiguity, got {:?}", outcome_name(&other)),
    }
    assert_eq!(after[0].len(), 2);
    assert_eq!(after[1].len(), 0);
}

#[test]
fn absent_prefix_moves_nothing() {
    let board = load_board("/ws", Some(default_board_config())).unwrap();
    let ts = "2023-05-01T10:00:00+00:00";
    let files = vec![
        vec![card_file("/ws/.kanban/to_do", "alpha", "Alpha", ts)],
        vec![],
        vec![],
    ];
    let (after, outcome) = board.move_card(files, "Zeta", Some(Direction::Right), 1_700_000_000);
    assert!(matches!(outcome, MoveOutcome::NoMatch));
    assert_eq!(after[0].len(), 1);
}

fn outcome_name(o: &MoveOutcome) -> &'static str {
    match o {
        MoveOutcome::NoMatch => "NoMatch",
        MoveOutcome::AmbiguousMatch { .. } => "Ambiguous",
        MoveOutcome::AtBoundary => "AtBoundary",
        MoveOutcome::Moved { .. } => "Moved",
    }
}
