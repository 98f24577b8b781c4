//! The board: an ordered sequence of columns, each a named stage backed by
//! one directory under the workspace's marker directory.

use vstd::prelude::*;
use crate::KanbanError;
use crate::args::{Direction, default_direction};
use crate::card::{
    Card, CardSpec, CardFile, CardFileSpec, cards_view, files_view, spec_col_cards,
    spec_parse_card, load_column_cards, set_last_moved, spec_set_ts, ts_of, headline_of,
    has_frontmatter,
};
use crate::text::spec_lines;
use crate::config::{
    RawColumnSpec, spec_parse_config, parse_config, col_complete, lemma_parse_config_complete,
};
use crate::paths::{path_join, file_name_of, join, file_name};
use crate::text::{opt_str_view, str_starts_with};
use crate::time::{ts_in_range, rfc3339_of};

verus! {

/// The mathematical value of a column.
pub struct ColSpec {
    pub name: Seq<char>,
    pub dir_name: Seq<char>,
    pub path: Option<Seq<char>>,
    pub limit: Option<u32>,
    pub display: Option<u32>,
    pub sort_by: Option<Seq<char>>,
    pub sort_order: Option<Seq<char>>,
    pub show_headlines_in_summary: Option<bool>,
}

/// A named stage of the workflow. `dir_name` is its storage key; `path` is
/// the resolved directory, set when the board is loaded. The `limit`,
/// `display`, `sort_by` and `sort_order` fields are declarative display
/// hints, passed through to callers.
pub struct Column {
    pub name: String,
    pub dir_name: String,
    pub path: Option<String>,
    pub limit: Option<u32>,
    pub display: Option<u32>,
    pub sort_by: Option<String>,
    pub sort_order: Option<String>,
    pub show_headlines_in_summary: Option<bool>,
}

impl View for Column {
    type V = ColSpec;

    open spec fn view(&self) -> ColSpec {
        ColSpec {
            name: self.name@,
            dir_name: self.dir_name@,
            path: opt_str_view(self.path),
            limit: self.limit,
            display: self.display,
            sort_by: opt_str_view(self.sort_by),
            sort_order: opt_str_view(self.sort_order),
            show_headlines_in_summary: self.show_headlines_in_summary,
        }
    }
}

/// The mathematical value of a board.
pub struct BoardSpec {
    pub columns: Seq<ColSpec>,
    pub path: Option<Seq<char>>,
}

/// The ordered columns of one workspace. Column order is significant: it
/// defines adjacency for moves.
pub struct Board {
    pub columns: Vec<Column>,
    pub path: Option<String>,
}

/// The views of a sequence of columns.
pub open spec fn cols_view(v: Seq<Column>) -> Seq<ColSpec> {
    v.map_values(|c: Column| c@)
}

impl View for Board {
    type V = BoardSpec;

    open spec fn view(&self) -> BoardSpec {
        BoardSpec { columns: cols_view(self.columns@), path: opt_str_view(self.path) }
    }
}

/// Whether every column of a loaded board has its resolved directory path.
pub open spec fn board_resolved(b: BoardSpec) -> bool {
    forall|i: int| 0 <= i < b.columns.len() ==> (#[trigger] b.columns[i]).path is Some
}

// ------------------------------------------------------------------
// Loading a board
// ------------------------------------------------------------------

/// A declared column resolved against a workspace root: its directory is
/// `<root>/.kanban/<dir_name>`.
pub open spec fn resolve_col(root: Seq<char>, c: RawColumnSpec) -> ColSpec {
    ColSpec {
        name: c.name.unwrap(),
        dir_name: c.dir_name.unwrap(),
        path: Some(path_join(path_join(root, ".kanban"@), c.dir_name.unwrap())),
        limit: c.limit,
        display: c.display,
        sort_by: c.sort_by,
        sort_order: c.sort_order,
        show_headlines_in_summary: c.show_headlines_in_summary,
    }
}

/// Whether the declared columns have pairwise distinct storage keys.
pub open spec fn unique_dirs(cols: Seq<RawColumnSpec>) -> bool {
    forall|i: int, j: int|
        0 <= i < j < cols.len() ==> (#[trigger] cols[i]).dir_name != (#[trigger] cols[j]).dir_name
}

/// Loads a board from its workspace root and the configuration file's text:
/// each declared column, in declared order, resolved to its directory.
/// `conf` is `None` when the configuration file is absent; a malformed
/// configuration, or one whose columns share a `dir_name`, is rejected.
pub fn load_board(root: &str, conf: Option<&str>) -> (r: Result<Board, KanbanError>)
    ensures
        match r {
            Ok(b) => conf is Some && spec_parse_config(conf.unwrap()@) is Some && unique_dirs(
                spec_parse_config(conf.unwrap()@).unwrap(),
            ) && b@.path == Some(root@) && b@.columns == spec_parse_config(
                conf.unwrap()@,
            ).unwrap().map_values(|c: RawColumnSpec| resolve_col(root@, c)) && board_resolved(b@),
            Err(e) => match e {
                KanbanError::ConfigNotFound => conf is None,
                KanbanError::ConfigParseError => conf is Some && (spec_parse_config(
                    conf.unwrap()@,
                ) is None || !unique_dirs(spec_parse_config(conf.unwrap()@).unwrap())),
                _ => false,
            },
        },
{
    let ctext = match conf {
        Some(c) => c,
        None => {
            return Err(KanbanError::ConfigNotFound);
        },
    };
    let raws = match parse_config(ctext) {
        Ok(raws) => raws,
        Err(_) => {
            return Err(KanbanError::ConfigParseError);
        },
    };
    let ghost parsed = spec_parse_config(ctext@).unwrap();
    proof {
        lemma_parse_config_complete(ctext@);
        assert(forall|i: int| 0 <= i < parsed.len() ==> col_complete(#[trigger] parsed[i]));
    }
    let n = raws.len();
    // the storage keys must be pairwise distinct
    let mut i: usize = 0;
    while i < n
        invariant
            i <= n,
            n == raws@.len(),
            parsed == crate::config::raws_view(raws@),
            conf is Some && spec_parse_config(conf.unwrap()@) == Some(parsed),
            forall|a: int, b: int| 0 <= a < b < i ==> parsed[a].dir_name != parsed[b].dir_name,
            forall|k: int| 0 <= k < parsed.len() ==> col_complete(#[trigger] parsed[k]),
        decreases n - i,
    {
        let mut j: usize = 0;
        while j < i
            invariant
                j <= i < n,
                n == raws@.len(),
                parsed == crate::config::raws_view(raws@),
                conf is Some && spec_parse_config(conf.unwrap()@) == Some(parsed),
                forall|k: int| 0 <= k < parsed.len() ==> col_complete(#[trigger] parsed[k]),
                forall|b: int| 0 <= b < j ==> parsed[b].dir_name != parsed[i as int].dir_name,
            decreases i - j,
        {
            proof {
                assert(parsed[j as int] == raws@[j as int]@);
                assert(parsed[i as int] == raws@[i as int]@);
            }
            let same = match (&raws[j].dir_name, &raws[i].dir_name) {
                (Some(a), Some(b)) => a.eq(b),
                _ => {
                    proof {
                        assert(col_complete(parsed[j as int]));
                        assert(col_complete(parsed[i as int]));
                        assert(false);
                    }
                    false
                },
            };
            if same {
                proof {
                    assert(parsed[j as int].dir_name == parsed[i as int].dir_name);
                }
                return Err(KanbanError::ConfigParseError);
            }
            j = j + 1;
        }
        i = i + 1;
    }
    proof {
        assert(unique_dirs(parsed));
    }
    // resolve each column against the workspace root
    let base = join(root, ".kanban");
    let mut columns: Vec<Column> = Vec::new();
    let mut k: usize = 0;
    proof {
        assert(cols_view(columns@) =~= parsed.take(0).map_values(
            |c: RawColumnSpec| resolve_col(root@, c),
        ));
    }
    while k < n
        invariant
            k <= n,
            n == raws@.len(),
            parsed == crate::config::raws_view(raws@),
            forall|t: int| 0 <= t < parsed.len() ==> col_complete(#[trigger] parsed[t]),
            base@ == path_join(root@, ".kanban"@),
            cols_view(columns@) == parsed.take(k as int).map_values(
                |c: RawColumnSpec| resolve_col(root@, c),
            ),
        decreases n - k,
    {
        let raw = &raws[k];
        proof {
            assert(col_complete(parsed[k as int]));
        }
        let name = match &raw.name {
            Some(s) => s.clone(),
            None => {
                proof {
                    assert(false);
                }
                String::new()
            },
        };
        let dir_name = match &raw.dir_name {
            Some(s) => s.clone(),
            None => {
                proof {
                    assert(false);
                }
                String::new()
            },
        };
        let path = join(base.as_str(), dir_name.as_str());
        let sort_by = match &raw.sort_by {
            Some(s) => Some(s.clone()),
            None => None,
        };
        let sort_order = match &raw.sort_order {
            Some(s) => Some(s.clone()),
            None => None,
        };
        let col = Column {
            name,
            dir_name,
            path: Some(path),
            limit: raw.limit,
            display: raw.display,
            sort_by,
            sort_order,
            show_headlines_in_summary: raw.show_headlines_in_summary,
        };
        let ghost c0 = cols_view(columns@);
        columns.push(col);
        k = k + 1;
        proof {
            assert(cols_view(columns@) =~= c0.push(resolve_col(root@, parsed[k - 1])));
            assert(parsed.take(k as int).map_values(|c: RawColumnSpec| resolve_col(root@, c))
                =~= parsed.take(k - 1).map_values(|c: RawColumnSpec| resolve_col(root@, c)).push(
                resolve_col(root@, parsed[k - 1]),
            ));
        }
    }
    proof {
        assert(parsed.take(n as int) =~= parsed);
    }
    let b = Board { columns, path: Some(String::from_str(root)) };
    proof {
        assert(board_resolved(b@));
    }
    Ok(b)
}

// ------------------------------------------------------------------
// Searching for cards
// ------------------------------------------------------------------

/// The mathematical value of a search hit.
pub struct FoundSpec {
    pub card: CardSpec,
    pub column_position: int,
}

/// One search hit: a card and the position of the column holding it.
pub struct FoundCard {
    pub card: Card,
    pub column_position: usize,
}

impl View for FoundCard {
    type V = FoundSpec;

    open spec fn view(&self) -> FoundSpec {
        FoundSpec { card: self.card@, column_position: self.column_position as int }
    }
}

/// The views of a sequence of hits.
pub open spec fn found_view(v: Seq<FoundCard>) -> Seq<FoundSpec> {
    v.map_values(|f: FoundCard| f@)
}

/// The views of per-column card vectors.
pub open spec fn grid_view(v: Seq<Vec<Card>>) -> Seq<Seq<CardSpec>> {
    v.map_values(|col: Vec<Card>| cards_view(col@))
}

/// The views of per-column file vectors.
pub open spec fn files_grid_view(v: Seq<Vec<CardFile>>) -> Seq<Seq<CardFileSpec>> {
    v.map_values(|col: Vec<CardFile>| files_view(col@))
}

/// The cards each column's files yield.
pub open spec fn grid_cards(fv: Seq<Seq<CardFileSpec>>) -> Seq<Seq<CardSpec>> {
    fv.map_values(|col: Seq<CardFileSpec>| spec_col_cards(col))
}

/// Whether a card's headline starts with the prefix; a card without a
/// headline matches nothing.
pub open spec fn card_matches(c: CardSpec, p: Seq<char>) -> bool {
    match c.headline {
        Some(h) => p.is_prefix_of(h),
        None => false,
    }
}

/// The hits within one column at position `j`, in card order.
pub open spec fn col_found(col: Seq<CardSpec>, j: int, p: Seq<char>) -> Seq<FoundSpec>
    decreases col.len(),
{
    if col.len() == 0 {
        Seq::empty()
    } else {
        let rest = col_found(col.drop_last(), j, p);
        if card_matches(col.last(), p) {
            rest.push(FoundSpec { card: col.last(), column_position: j })
        } else {
            rest
        }
    }
}

/// Every hit across the columns, in column order then card order.
pub open spec fn found_in(cards: Seq<Seq<CardSpec>>, p: Seq<char>) -> Seq<FoundSpec>
    decreases cards.len(),
{
    if cards.len() == 0 {
        Seq::empty()
    } else {
        found_in(cards.drop_last(), p) + col_found(cards.last(), cards.len() - 1, p)
    }
}

impl Board {
    /// Collects every card whose headline starts with `headline`, scanning
    /// the columns in order and each column's cards in listing order.
    /// Disambiguation is the caller's business: zero or many hits are
    /// returned as they are.
    pub fn find_cards_by_headline_prefix(&self, cards: &Vec<Vec<Card>>, headline: &str) -> (r: Vec<
        FoundCard,
    >)
        requires
            cards@.len() == self.columns@.len(),
        ensures
            found_view(r@) == found_in(grid_view(cards@), headline@),
    {
        let ghost gv = grid_view(cards@);
        let ghost p = headline@;
        let mut found: Vec<FoundCard> = Vec::new();
        let ncols = cards.len();
        let mut j: usize = 0;
        proof {
            assert(found_view(found@) =~= found_in(gv.take(0), p));
        }
        while j < ncols
            invariant
                j <= ncols,
                ncols == cards@.len(),
                gv == grid_view(cards@),
                p == headline@,
                found_view(found@) == found_in(gv.take(j as int), p),
            decreases ncols - j,
        {
            let col = &cards[j];
            let m = col.len();
            let mut k: usize = 0;
            proof {
                assert(gv[j as int].take(0) =~= Seq::<CardSpec>::empty());
                assert(found_view(found@) + col_found(gv[j as int].take(0), j as int, p)
                    =~= found_view(found@));
            }
            while k < m
                invariant
                    k <= m,
                    j < ncols,
                    m == col@.len(),
                    ncols == cards@.len(),
                    col == cards@[j as int],
                    gv == grid_view(cards@),
                    p == headline@,
                    found_view(found@) == found_in(gv.take(j as int), p) + col_found(
                        gv[j as int].take(k as int),
                        j as int,
                        p,
                    ),
                decreases m - k,
            {
                proof {
                    assert(gv[j as int].take(k as int + 1).drop_last() =~= gv[j as int].take(
                        k as int,
                    ));
                    assert(gv[j as int].take(k as int + 1).last() == gv[j as int][k as int]);
                    assert(gv[j as int][k as int] == col@[k as int]@);
                }
                let c = &col[k];
                let matched = match &c.headline {
                    Some(h) => str_starts_with(h.as_str(), headline),
                    None => false,
                };
                if matched {
                    let ghost f0 = found_view(found@);
                    let hit = FoundCard { card: c.clone(), column_position: j };
                    let ghost hv = hit@;
                    found.push(hit);
                    proof {
                        assert(found_view(found@) =~= f0.push(hv));
                        assert(f0.push(hv) =~= found_in(gv.take(j as int), p) + col_found(
                            gv[j as int].take(k as int + 1),
                            j as int,
                            p,
                        ));
                    }
                }
                k = k + 1;
            }
            j = j + 1;
            proof {
                assert(gv[j - 1].take(m as int) =~= gv[j - 1]);
                assert(gv.take(j as int).drop_last() =~= gv.take(j - 1));
                assert(gv.take(j as int).last() == gv[j - 1]);
                assert(found_in(gv.take(j as int), p) == found_in(gv.take(j - 1), p) + col_found(
                    gv[j - 1],
                    j - 1,
                    p,
                ));
            }
        }
        proof {
            assert(gv.take(ncols as int) =~= gv);
        }
        found
    }
}

// ------------------------------------------------------------------
// Moving a card
// ------------------------------------------------------------------

/// Every hit of one column carries that column's position, matches the
/// prefix, and is one of the column's cards.
pub proof fn lemma_col_found_elem(col: Seq<CardSpec>, j: int, p: Seq<char>)
    ensures
        forall|i: int|
            0 <= i < col_found(col, j, p).len() ==> (#[trigger] col_found(col, j, p)[i]).column_position
                == j && card_matches(col_found(col, j, p)[i].card, p) && col.contains(
                col_found(col, j, p)[i].card,
            ),
    decreases col.len(),
{
    if col.len() > 0 {
        lemma_col_found_elem(col.drop_last(), j, p);
        let r = col_found(col, j, p);
        let rest = col_found(col.drop_last(), j, p);
        assert forall|i: int|
            0 <= i < r.len() implies (#[trigger] r[i]).column_position == j && card_matches(
            r[i].card,
            p,
        ) && col.contains(r[i].card) by {
            if i < rest.len() {
                assert(r[i] == rest[i]);
                let c = rest[i].card;
                assert(col.drop_last().contains(c));
                let w = choose|w: int| 0 <= w < col.drop_last().len() && col.drop_last()[w] == c;
                assert(col[w] == c);
            } else {
                assert(r[i].card == col.last());
                assert(col[col.len() - 1] == col.last());
            }
        }
    }
}

/// Every hit names a column in range, matches the prefix, and is one of that
/// column's cards.
pub proof fn lemma_found_in_elem(g: Seq<Seq<CardSpec>>, p: Seq<char>)
    ensures
        forall|i: int|
            0 <= i < found_in(g, p).len() ==> 0 <= (#[trigger] found_in(g, p)[i]).column_position
                < g.len() && card_matches(found_in(g, p)[i].card, p) && g[found_in(
                g,
                p,
            )[i].column_position].contains(found_in(g, p)[i].card),
    decreases g.len(),
{
    if g.len() > 0 {
        lemma_found_in_elem(g.drop_last(), p);
        lemma_col_found_elem(g.last(), g.len() - 1, p);
        let r = found_in(g, p);
        let rest = found_in(g.drop_last(), p);
        let cf = col_found(g.last(), g.len() - 1, p);
        assert forall|i: int|
            0 <= i < r.len() implies 0 <= (#[trigger] r[i]).column_position < g.len()
            && card_matches(r[i].card, p) && g[r[i].column_position].contains(r[i].card) by {
            if i < rest.len() {
                assert(r[i] == rest[i]);
                assert(g.drop_last()[rest[i].column_position] == g[rest[i].column_position]);
            } else {
                assert(r[i] == cf[i - rest.len()]);
                assert(g[g.len() - 1] == g.last());
            }
        }
    }
}

/// Every card a column listing yields comes from one of its files.
pub proof fn lemma_col_cards_source(fs: Seq<CardFileSpec>, c: CardSpec)
    requires
        spec_col_cards(fs).contains(c),
    ensures
        exists|k: int|
            0 <= k < fs.len() && (#[trigger] fs[k]).path == c.file_path && crate::card::is_md(
                fs[k].path,
            ) && spec_parse_card(fs[k].path, fs[k].contents) == Some(c),
    decreases fs.len(),
{
    if fs.len() > 0 {
        let rest = spec_col_cards(fs.drop_last());
        let f = fs.last();
        let r = spec_col_cards(fs);
        if crate::card::is_md(f.path) && spec_parse_card(f.path, f.contents) is Some && c
            == spec_parse_card(f.path, f.contents).unwrap() {
            assert(fs[fs.len() - 1] == f);
        } else {
            assert(rest.contains(c)) by {
                let w = choose|w: int| 0 <= w < r.len() && r[w] == c;
                if crate::card::is_md(f.path) && spec_parse_card(f.path, f.contents) is Some {
                    assert(w < rest.len());
                    assert(rest[w] == c);
                } else {
                    assert(rest[w] == c);
                }
            }
            lemma_col_cards_source(fs.drop_last(), c);
            let k = choose|k: int|
                0 <= k < fs.drop_last().len() && (#[trigger] fs.drop_last()[k]).path == c.file_path
                    && crate::card::is_md(fs.drop_last()[k].path) && spec_parse_card(
                    fs.drop_last()[k].path,
                    fs.drop_last()[k].contents,
                ) == Some(c);
            assert(fs[k] == fs.drop_last()[k]);
        }
    }
}

/// Whether each column's files have pairwise distinct paths, as a directory
/// listing does.
pub open spec fn paths_distinct(fv: Seq<Seq<CardFileSpec>>) -> bool {
    forall|j: int, a: int, b: int|
        0 <= j < fv.len() && 0 <= a < b < fv[j].len() ==> (#[trigger] fv[j][a]).path != (
        #[trigger] fv[j][b]).path
}

/// The first file of `col` whose path is `path`, if any.
fn find_file_index(col: &Vec<CardFile>, path: &String) -> (r: Option<usize>)
    ensures
        match r {
            Some(k) => k < col@.len() && col@[k as int]@.path == path@ && forall|t: int|
                0 <= t < k ==> (#[trigger] col@[t]@).path != path@,
            None => forall|t: int| 0 <= t < col@.len() ==> (#[trigger] col@[t]@).path != path@,
        },
{
    let m = col.len();
    let mut i: usize = 0;
    while i < m
        invariant
            i <= m,
            m == col@.len(),
            forall|t: int| 0 <= t < i ==> (#[trigger] col@[t]@).path != path@,
        decreases m - i,
    {
        if col[i].path.eq(path) {
            return Some(i);
        }
        i = i + 1;
    }
    None
}

/// What a move decided and did. I/O failures are the caller's to report: the
/// library only computes the new file state.
pub enum MoveOutcome {
    /// No card's headline starts with the prefix; nothing changed.
    NoMatch,
    /// Two or more cards match; nothing changed, the count is reported.
    AmbiguousMatch { count: usize },
    /// The matched card is already in the leftmost or rightmost column;
    /// nothing changed.
    AtBoundary,
    /// The card moved: its file at `old_path` is rewritten as `new_content`
    /// and renamed to `new_path` in the adjacent column's directory.
    Moved {
        from_column: usize,
        file_index: usize,
        to_column: usize,
        headline: Option<String>,
        old_path: String,
        new_path: String,
        new_content: String,
    },
}

impl Board {
    /// Moves the card whose headline starts with `headline` one column to
    /// the left or right (right when no direction is given). The move is
    /// refused unless exactly one card matches; at the leftmost or rightmost
    /// column it is a no-op. `files` is each column's directory listing, so
    /// paths are distinct within a column; the returned state is the listing
    /// after the move, and the outcome names the file to rewrite and rename.
    pub fn move_card(
        &self,
        files: Vec<Vec<CardFile>>,
        headline: &str,
        direction: Option<Direction>,
        now: i64,
    ) -> (r: (Vec<Vec<CardFile>>, MoveOutcome))
        requires
            ts_in_range(now as int),
            files@.len() == self.columns@.len(),
            board_resolved(self@),
            paths_distinct(files_grid_view(files@)),
        ensures
            ({
                let fv = files_grid_view(files@);
                let found = found_in(grid_cards(fv), headline@);
                let dir = match direction {
                    Some(d) => d,
                    None => Direction::Right,
                };
                match r.1 {
                    MoveOutcome::NoMatch => r.0 == files && found.len() == 0,
                    MoveOutcome::AmbiguousMatch { count } => r.0 == files && found.len() == count as int
                        && count >= 2,
                    MoveOutcome::AtBoundary => r.0 == files && found.len() == 1 && ((dir
                        == Direction::Left && found[0].column_position == 0) || (dir
                        == Direction::Right && found[0].column_position == files@.len() - 1)),
                    MoveOutcome::Moved {
                        from_column,
                        file_index,
                        to_column,
                        headline: moved_headline,
                        old_path,
                        new_path,
                        new_content,
                    } => {
                        let from = from_column as int;
                        let fi = file_index as int;
                        let to = to_column as int;
                        let src = fv[from][fi];
                        let lines = spec_lines(src.contents);
                        &&& found.len() == 1
                        &&& from == found[0].column_position
                        &&& (dir == Direction::Left ==> from > 0 && to == from - 1)
                        &&& (dir == Direction::Right ==> from < files@.len() - 1 && to == from + 1)
                        &&& 0 <= to < files@.len()
                        &&& 0 <= fi < fv[from].len()
                        &&& src.path == found[0].card.file_path
                        &&& crate::card::is_md(src.path)
                        &&& spec_parse_card(src.path, src.contents) == Some(found[0].card)
                        &&& opt_str_view(moved_headline) == found[0].card.headline
                        &&& old_path@ == src.path
                        &&& new_path@ == path_join(
                            self@.columns[to].path.unwrap(),
                            file_name_of(src.path),
                        )
                        &&& new_content@ == crate::text::join_nl(spec_set_ts(lines, rfc3339_of(now as int)))
                        &&& has_frontmatter(spec_lines(new_content@))
                        &&& ts_of(spec_lines(new_content@)) == Some(now as int)
                        &&& headline_of(spec_lines(new_content@)) == headline_of(lines)
                        &&& r.0@.len() == files@.len()
                        &&& (forall|j: int|
                            0 <= j < files@.len() && j != from && j != to ==> r.0@[j] == files@[j])
                        &&& files_view(r.0@[from]@) == fv[from].remove(fi)
                        &&& files_view(r.0@[to]@) == fv[to].push(
                            CardFileSpec { path: new_path@, contents: new_content@ },
                        )
                        &&& files_grid_view(r.0@) == fv.update(from, fv[from].remove(fi)).update(
                            to,
                            fv[to].push(CardFileSpec { path: new_path@, contents: new_content@ }),
                        )
                    },
                }
            }),
    {
        let ghost fv = files_grid_view(files@);
        let ghost p = headline@;
        // parse every column, as the search over the board does
        let mut cards: Vec<Vec<Card>> = Vec::new();
        let ncols = files.len();
        let mut j: usize = 0;
        proof {
            assert(grid_view(cards@) =~= grid_cards(fv.take(0)));
        }
        while j < ncols
            invariant
                j <= ncols,
                ncols == files@.len(),
                fv == files_grid_view(files@),
                cards@.len() == j,
                grid_view(cards@) == grid_cards(fv.take(j as int)),
            decreases ncols - j,
        {
            let ghost g0 = grid_view(cards@);
            let col_cards = load_column_cards(&files[j]);
            cards.push(col_cards);
            j = j + 1;
            proof {
                assert(fv[j - 1] == files_view(files@[j - 1]@));
                assert(grid_view(cards@) =~= g0.push(spec_col_cards(fv[j - 1])));
                assert(grid_cards(fv.take(j as int)) =~= grid_cards(fv.take(j - 1)).push(
                    spec_col_cards(fv[j - 1]),
                ));
            }
        }
        proof {
            assert(fv.take(ncols as int) =~= fv);
            assert(cards@.len() == self.columns@.len());
        }
        let found = self.find_cards_by_headline_prefix(&cards, headline);
        let ghost fnd = found_in(grid_cards(fv), p);
        let count = found.len();
        if count == 0 {
            return (files, MoveOutcome::NoMatch);
        }
        if count != 1 {
            return (files, MoveOutcome::AmbiguousMatch { count });
        }
        proof {
            assert(found_view(found@)[0] == found@[0]@);
            lemma_found_in_elem(grid_cards(fv), p);
        }
        let from = found[0].column_position;
        let dir = match direction {
            Some(d) => d,
            None => default_direction(),
        };
        let to: usize = match dir {
            Direction::Left => {
                if from == 0 {
                    return (files, MoveOutcome::AtBoundary);
                }
                from - 1
            },
            Direction::Right => {
                if from == self.columns.len() - 1 {
                    return (files, MoveOutcome::AtBoundary);
                }
                from + 1
            },
        };
        // the matched card's file: the one in its column with the card's path
        proof {
            assert(grid_cards(fv)[from as int] == spec_col_cards(fv[from as int]));
            assert(grid_cards(fv)[from as int].contains(fnd[0].card));
            lemma_col_cards_source(fv[from as int], fnd[0].card);
        }
        let mut files = files;
        let fi = match find_file_index(&files[from], &found[0].card.file_path) {
            Some(fi) => fi,
            None => {
                // the matched card came from one of this column's files
                proof {
                    assert(found_view(found@) == fnd);
                    assert(fnd[0] == found@[0]@);
                    let k = choose|k: int|
                        0 <= k < fv[from as int].len() && (#[trigger] fv[from as int][k]).path
                            == fnd[0].card.file_path && crate::card::is_md(fv[from as int][k].path)
                            && spec_parse_card(
                            fv[from as int][k].path,
                            fv[from as int][k].contents,
                        ) == Some(fnd[0].card);
                    assert(fv[from as int][k] == files@[from as int]@[k]@);
                    assert(false);
                }
                return (files, MoveOutcome::NoMatch);
            },
        };
        proof {
            assert(fv[from as int][fi as int] == files@[from as int]@[fi as int]@);
        }
        proof {
            // distinct paths: this is the file the card was parsed from
            let k = choose|k: int|
                0 <= k < fv[from as int].len() && (#[trigger] fv[from as int][k]).path
                    == fnd[0].card.file_path && crate::card::is_md(fv[from as int][k].path)
                    && spec_parse_card(fv[from as int][k].path, fv[from as int][k].contents)
                    == Some(fnd[0].card);
            if k != fi as int {
                assert(fv[from as int][k].path == fv[from as int][fi as int].path);
                assert(false);
            }
            assert(spec_parse_card(
                fv[from as int][fi as int].path,
                fv[from as int][fi as int].contents,
            ) == Some(fnd[0].card));
        }
        let entry = files[from].remove(fi);
        let ghost src = fv[from as int][fi as int];
        let new_content = match set_last_moved(entry.contents.as_str(), now) {
            Ok(s) => s,
            Err(_) => {
                // the card parsed, so its file has a frontmatter block
                proof {
                    assert(has_frontmatter(spec_lines(src.contents)));
                    assert(false);
                }
                return (files, MoveOutcome::NoMatch);
            },
        };
        let dest = match &self.columns[to].path {
            Some(p) => p.clone(),
            None => {
                proof {
                    assert(self@.columns[to as int].path is Some);
                    assert(false);
                }
                String::new()
            },
        };
        let fname = file_name(entry.path.as_str());
        let new_path = join(dest.as_str(), fname.as_str());
        let moved_headline = match &found[0].card.headline {
            Some(h) => Some(h.clone()),
            None => None,
        };
        let new_file = CardFile { path: new_path.clone(), contents: new_content.clone() };
        let ghost mid = files@;
        files[to].push(new_file);
        proof {
            assert(files_view(files@[from as int]@) =~= fv[from as int].remove(fi as int));
            assert(files_view(files@[to as int]@) =~= fv[to as int].push(
                CardFileSpec { path: new_path@, contents: new_content@ },
            ));
            let nf = CardFileSpec { path: new_path@, contents: new_content@ };
            let target = fv.update(from as int, fv[from as int].remove(fi as int)).update(
                to as int,
                fv[to as int].push(nf),
            );
            assert forall|j: int|
                0 <= j < files@.len() implies files_grid_view(files@)[j] == target[j] by {
                if j != from as int && j != to as int {
                    assert(files@[j] == mid.update(to as int, mid[to as int])[j]);
                }
            }
            assert(files_grid_view(files@) =~= target);
        }
        (
            files,
            MoveOutcome::Moved {
                from_column: from,
                file_index: fi,
                to_column: to,
                headline: moved_headline,
                old_path: entry.path,
                new_path,
                new_content,
            },
        )
    }
}

impl Column {
    /// The cards of this column, parsed from the files of its directory.
    /// Fails when the column has no resolved path.
    pub fn get_cards(&self, files: &Vec<CardFile>) -> (r: Result<Vec<Card>, KanbanError>)
        ensures
            match r {
                Ok(cards) => self.path is Some && cards_view(cards@) == spec_col_cards(
                    files_view(files@),
                ),
                Err(e) => self.path is None && e == KanbanError::NoColumnPath,
            },
    {
        match &self.path {
            Some(_) => Ok(load_column_cards(files)),
            None => Err(KanbanError::NoColumnPath),
        }
    }
}

} // verus!
