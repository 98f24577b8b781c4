use kanban::KanbanError;
use kanban::board::load_board;
use kanban::card::{Card, CardFile, load_card, load_column_cards, set_last_moved};
use kanban::workspace::default_board_config;

// 2023-05-01T10:00:00+00:00 in epoch seconds
const TS_TEXT: &str = "2023-05-01T10:00:00+00:00";
const TS_SECS: i64 = 1_682_935_200;

fn card_text(headline: &str, ts: &str) -> String {
    format!(
        "---\nlast_moved_at = \"{}\"\n---\n# {}\n---\n\nBody text.\n",
        ts, headline
    )
}

#[test]
fn parse_reads_headline_and_timestamp() {
    let card = load_card("/ws/.kanban/to_do/alpha.md", &card_text("Alpha", TS_TEXT)).unwrap();
    assert_eq!(card.file_path, "/ws/.kanban/to_do/alpha.md");
    assert_eq!(card.headline.as_deref(), Some("Alpha"));
    assert_eq!(card.last_moved_at, Some(TS_SECS));
}

#[test]
fn parse_strips_heading_markers_and_whitespace() {
    let text = "---\n---\n##  Deep Title  \n---\nbody\n";
    let card = load_card("x.md", text).unwrap();
    assert_eq!(card.headline.as_deref(), Some("Deep Title"));
    assert_eq!(card.last_moved_at, None);
}

#[test]
fn parse_survives_a_malformed_timestamp() {
    let card = load_card("x.md", &card_text("Alpha", "not a date")).unwrap();
    assert_eq!(card.headline.as_deref(), Some("Alpha"));
    assert_eq!(card.last_moved_at, None);
}

#[test]
fn parse_without_excerpt_has_no_headline() {
    let text = "---\nlast_moved_at = \"2023-05-01T10:00:00+00:00\"\n---\nno excerpt delimiter here\n";
    let card = load_card("x.md", text).unwrap();
    assert_eq!(card.headline, None);
    assert_eq!(card.last_moved_at, Some(TS_SECS));
}

#[test]
fn parse_rejects_a_file_without_frontmatter() {
    assert!(matches!(
        load_card("x.md", "just some text\n"),
        Err(KanbanError::CardParseError)
    ));
    assert!(matches!(
        load_card("x.md", "---\nnever closed\n"),
        Err(KanbanError::CardParseError)
    ));
    assert!(matches!(load_card("x.md", ""), Err(KanbanError::CardParseError)));
}

#[test]
fn parse_stops_at_the_first_frontmatter_table() {
    let text = "---\n[events]\nlast_moved_at = \"2023-05-01T10:00:00+00:00\"\n---\n# T\n---\n";
    let card = load_card("x.md", text).unwrap();
    // the key sits inside a table, so the card carries no timestamp
    assert_eq!(card.last_moved_at, None);
}

#[test]
fn column_listing_skips_what_does_not_parse() {
    let files = vec![
        CardFile { path: "/c/good.md".to_string(), contents: card_text("Good", TS_TEXT) },
        CardFile { path: "/c/bad.md".to_string(), contents: "no frontmatter".to_string() },
        CardFile { path: "/c/not_a_card.txt".to_string(), contents: card_text("Txt", TS_TEXT) },
    ];
    let cards = load_column_cards(&files);
    assert_eq!(cards.len(), 1);
    assert_eq!(cards[0].headline.as_deref(), Some("Good"));
    assert_eq!(cards[0].file_path, "/c/good.md");
}

#[test]
fn boilerplate_round_trips_headline_and_time() {
    let now: i64 = 1_700_000_000;
    let text = Card::boilerplate(Some("My Task"), now);
    let card = load_card("/tmp/buffer.md", &text).unwrap();
    assert_eq!(card.headline.as_deref(), Some("My Task"));
    assert_eq!(card.last_moved_at, Some(now));
}

#[test]
fn boilerplate_without_hint_has_no_headline() {
    let text = Card::boilerplate(None, 1_700_000_000);
    let card = load_card("/tmp/buffer.md", &text).unwrap();
    assert_eq!(card.headline, None);
}

#[test]
fn new_card_files_under_its_column() {
    let board = load_board("/ws", Some(default_board_config())).unwrap();
    let text = card_text("My New Card", TS_TEXT);
    let card = Card::new(&text, "/ws/.kanban", &board.columns[0]).unwrap();
    assert_eq!(card.file_path, "/ws/.kanban/to_do/my_new_card.md");
    assert_eq!(card.headline.as_deref(), Some("My New Card"));
    assert_eq!(card.last_moved_at, None);
}

#[test]
fn new_card_without_heading_is_refused() {
    let board = load_board("/ws", Some(default_board_config())).unwrap();
    let no_excerpt = "---\n---\nbody without a heading\n";
    assert!(matches!(
        Card::new(no_excerpt, "/ws/.kanban", &board.columns[0]),
        Err(KanbanError::NoHeadline)
    ));
    let empty_heading = "---\n---\n#   \n---\nbody\n";
    assert!(matches!(
        Card::new(empty_heading, "/ws/.kanban", &board.columns[0]),
        Err(KanbanError::NoHeadline)
    ));
    assert!(matches!(
        Card::new("no frontmatter at all", "/ws/.kanban", &board.columns[0]),
        Err(KanbanError::CardParseError)
    ));
}

#[test]
fn setting_the_timestamp_keeps_the_rest() {
    let now: i64 = 1_700_000_000;
    let text = card_text("Alpha", TS_TEXT);
    let rewritten = set_last_moved(&text, now).unwrap();
    let card = load_card("x.md", &rewritten).unwrap();
    assert_eq!(card.headline.as_deref(), Some("Alpha"));
    assert_eq!(card.last_moved_at, Some(now));
    // the body is untouched
    assert!(rewritten.contains("Body text."));
    // the old timestamp line is gone
    assert!(!rewritten.contains(TS_TEXT));
}

#[test]
fn setting_the_timestamp_inserts_a_missing_line() {
    let now: i64 = 1_700_000_000;
    let text = "---\ncreated = \"2023-01-01T00:00:00+00:00\"\n---\n# Alpha\n---\nbody\n";
    let rewritten = set_last_moved(text, now).unwrap();
    let card = load_card("x.md", &rewritten).unwrap();
    assert_eq!(card.last_moved_at, Some(now));
    assert_eq!(card.headline.as_deref(), Some("Alpha"));
}

#[test]
fn move_to_column_relocates_the_card() {
    let board = load_board("/ws", Some(default_board_config())).unwrap();
    let now: i64 = 1_700_000_000;
    let text = card_text("Alpha", TS_TEXT);
    let mut card = load_card("/ws/.kanban/to_do/alpha.md", &text).unwrap();
    let new_content = card.move_to_column(&board.columns[1], &text, now).unwrap();
    assert_eq!(card.file_path, "/ws/.kanban/in_progress/alpha.md");
    assert_eq!(card.last_moved_at, Some(now));
    assert_eq!(card.headline.as_deref(), Some("Alpha"));
    let reread = load_card(&card.file_path, &new_content).unwrap();
    assert_eq!(reread.last_moved_at, Some(now));
}
