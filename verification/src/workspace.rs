//! Workspaces: one directory tree each, holding at most one board and one
//! notes file. A workspace is derived fresh from the filesystem every run;
//! the caller reads the files and hands their contents in.

use vstd::prelude::*;
use crate::KanbanError;
use crate::board::{Board, BoardSpec, ColSpec, load_board, unique_dirs, resolve_col, grid_view};
use crate::config::spec_parse_config;
use crate::card::{Card, CardSpec};
use crate::config::RawColumnSpec;
use crate::notes::{Note, NoteSpec, notes_view, spec_notes, load_notes};
use crate::paths::{path_join, file_name_of, parent_of, first_component, file_name, join, parent};
use crate::text::{str_chars, chars_to_string, vec_eq_str, str_starts_with, find_char,
    vec_subrange};

verus! {

broadcast use vstd::seq_lib::group_to_multiset_ensures;

/// The mathematical value of a workspace.
pub struct WorkspaceSpec {
    pub root: Seq<char>,
    pub name: Seq<char>,
    pub updated_at: u64,
    pub board: Option<BoardSpec>,
    pub notes: Seq<NoteSpec>,
}

/// One workspace. Its identity is its root path; `updated_at` is the root's
/// last-modified time in epoch seconds, as the caller read it.
pub struct Workspace {
    pub root: String,
    pub name: String,
    pub updated_at: u64,
    pub board: Option<Board>,
    pub notes: Vec<Note>,
}

impl View for Workspace {
    type V = WorkspaceSpec;

    open spec fn view(&self) -> WorkspaceSpec {
        WorkspaceSpec {
            root: self.root@,
            name: self.name@,
            updated_at: self.updated_at,
            board: match self.board {
                Some(b) => Some(b@),
                None => None,
            },
            notes: notes_view(self.notes@),
        }
    }
}

/// The board a workspace's configuration yields, or none: an absent or
/// unusable configuration degrades the workspace to "no board".
pub open spec fn spec_board_of(root: Seq<char>, conf: Option<Seq<char>>) -> Option<BoardSpec> {
    match conf {
        None => None,
        Some(c) => match spec_parse_config(c) {
            Some(cols) => if unique_dirs(cols) {
                Some(
                    BoardSpec {
                        columns: cols.map_values(|rc: RawColumnSpec| resolve_col(root, rc)),
                        path: Some(root),
                    },
                )
            } else {
                None
            },
            None => None,
        },
    }
}

impl Workspace {
    /// Builds a workspace from what the caller read: the root's path and
    /// modification time, the configuration file's text (when present) and
    /// the notes file's text (when present). A board that fails to load is
    /// not fatal: the workspace simply has none.
    pub fn new(root: String, updated_at: u64, conf: Option<&str>, notes_text: Option<&str>) -> (w:
        Workspace)
        requires
            file_name_of(root@).len() > 0,
        ensures
            w@.root == root@,
            w@.name == file_name_of(root@),
            w@.updated_at == updated_at,
            w@.board == spec_board_of(
                root@,
                match conf {
                    Some(c) => Some(c@),
                    None => None,
                },
            ),
            w@.notes == match notes_text {
                Some(t) => spec_notes(t@, path_join(root@, "notes.md"@)),
                None => Seq::<NoteSpec>::empty(),
            },
    {
        let name = file_name(root.as_str());
        let board = match load_board(root.as_str(), conf) {
            Ok(b) => Some(b),
            Err(_) => None,
        };
        let notes = match notes_text {
            Some(t) => {
                let p = join(root.as_str(), "notes.md");
                load_notes(p.as_str(), t)
            },
            None => Vec::new(),
        };
        let w = Workspace { root, name, updated_at, board, notes };
        proof {
            assert(notes_view(Seq::<Note>::empty()) =~= Seq::<NoteSpec>::empty());
        }
        w
    }
}

// ------------------------------------------------------------------
// The summary
// ------------------------------------------------------------------

/// A card's headline as the summary shows it: a missing headline renders as
/// a placeholder, never omitted.
pub open spec fn headline_text(c: CardSpec) -> Seq<char> {
    match c.headline {
        Some(h) => h,
        None => "<missing headline>"@,
    }
}

/// One line per card, indented under its column.
pub open spec fn cards_lines(cards: Seq<CardSpec>) -> Seq<char>
    decreases cards.len(),
{
    if cards.len() == 0 {
        Seq::empty()
    } else {
        cards_lines(cards.drop_last()) + "    "@ + headline_text(cards.last()) + "\n"@
    }
}

/// One column's block: its name, then its cards' headlines.
pub open spec fn col_block(col: ColSpec, cards: Seq<CardSpec>) -> Seq<char> {
    "  "@ + col.name + ":\n"@ + cards_lines(cards)
}

/// The blocks of the first `n` columns; only columns flagged for the summary
/// appear, the others are omitted entirely.
pub open spec fn cols_blocks_up_to(cols: Seq<ColSpec>, grid: Seq<Seq<CardSpec>>, n: int) -> Seq<
    char,
>
    decreases n,
{
    if n <= 0 {
        Seq::empty()
    } else {
        cols_blocks_up_to(cols, grid, n - 1) + (if cols[n - 1].show_headlines_in_summary == Some(
            true,
        ) {
            col_block(cols[n - 1], grid[n - 1])
        } else {
            Seq::empty()
        })
    }
}

/// `s` re-indented for nested display: each newline gains four spaces.
pub open spec fn indented(s: Seq<char>) -> Seq<char>
    decreases s.len(),
{
    if s.len() == 0 {
        s
    } else {
        indented(s.drop_last()) + (if s.last() == '\n' {
            "\n    "@
        } else {
            seq![s.last()]
        })
    }
}

/// The first `n` notes, each on its own indented line.
pub open spec fn notes_lines_up_to(notes: Seq<NoteSpec>, n: int) -> Seq<char>
    decreases n,
{
    if n <= 0 {
        Seq::empty()
    } else {
        notes_lines_up_to(notes, n - 1) + "\n    "@ + indented(notes[n - 1].text)
    }
}

/// The notes section: up to three notes, nothing when there are none.
pub open spec fn notes_block(notes: Seq<NoteSpec>) -> Seq<char> {
    if notes.len() == 0 {
        Seq::empty()
    } else {
        "\n  Notes:"@ + notes_lines_up_to(
            notes,
            if notes.len() > 3 {
                3
            } else {
                notes.len() as int
            },
        )
    }
}

/// The whole summary: the workspace's name, the flagged columns' card
/// headlines, and up to three notes. An absent board yields only the name
/// and the notes.
pub open spec fn spec_summary(w: WorkspaceSpec, grid: Seq<Seq<CardSpec>>) -> Seq<char> {
    w.name + ":\n"@ + (match w.board {
        Some(b) => cols_blocks_up_to(b.columns, grid, b.columns.len() as int),
        None => Seq::empty(),
    }) + notes_block(w.notes)
}

/// `s` with four spaces added after each newline.
fn indent_text(s: &str) -> (r: String)
    ensures
        r@ == indented(s@),
{
    let v = str_chars(s);
    let n = v.len();
    let mut out: Vec<char> = Vec::new();
    let mut i: usize = 0;
    proof {
        reveal_strlit("\n    ");
        assert(out@ =~= indented(v@.take(0)));
    }
    while i < n
        invariant
            i <= n,
            n == v@.len(),
            out@ == indented(v@.take(i as int)),
        decreases n - i,
    {
        let ghost o0 = out@;
        let c = v[i];
        out.push(c);
        if c == '\n' {
            out.push(' ');
            out.push(' ');
            out.push(' ');
            out.push(' ');
        }
        i = i + 1;
        proof {
            reveal_strlit("\n    ");
            assert(v@.take(i as int).drop_last() =~= v@.take(i - 1));
            assert(v@.take(i as int).last() == v@[i - 1]);
            if c == '\n' {
                assert("\n    "@ =~= seq!['\n', ' ', ' ', ' ', ' ']);
                assert(out@ =~= o0 + "\n    "@);
            } else {
                assert(out@ =~= o0 + seq![c]);
            }
        }
    }
    proof {
        assert(v@.take(n as int) =~= v@);
    }
    chars_to_string(&out)
}

impl Workspace {
    /// The workspace's human-readable summary. `cards` holds each board
    /// column's cards, in column order, as the caller loaded them; with no
    /// board it is ignored.
    pub fn summary(&self, cards: &Vec<Vec<Card>>) -> (r: String)
        requires
            match self.board {
                Some(b) => cards@.len() == b.columns@.len(),
                None => true,
            },
        ensures
            r@ == spec_summary(self@, grid_view(cards@)),
    {
        let ghost grid = grid_view(cards@);
        let mut s = String::new();
        s.append(self.name.as_str());
        s.append(":\n");
        let ghost head = self@.name + ":\n"@;
        proof {
            assert(s@ =~= head);
        }
        match &self.board {
            Some(b) => {
                let ghost cols = b@.columns;
                let ncols = b.columns.len();
                let mut j: usize = 0;
                while j < ncols
                    invariant
                        j <= ncols,
                        ncols == b.columns@.len(),
                        cols == b@.columns,
                        grid == grid_view(cards@),
                        cards@.len() == ncols,
                        s@ == head + cols_blocks_up_to(cols, grid, j as int),
                    decreases ncols - j,
                {
                    let ghost s0 = s@;
                    let col = &b.columns[j];
                    proof {
                        assert(cols[j as int] == b.columns@[j as int]@);
                    }
                    let show = match col.show_headlines_in_summary {
                        Some(f) => f,
                        None => false,
                    };
                    if show {
                        s.append("  ");
                        s.append(col.name.as_str());
                        s.append(":\n");
                        let ghost colhead = s0 + "  "@ + cols[j as int].name + ":\n"@;
                        proof {
                            assert(s@ =~= colhead);
                            assert(grid[j as int].take(0) =~= Seq::<CardSpec>::empty());
                        }
                        let cc = &cards[j];
                        let m = cc.len();
                        let mut k: usize = 0;
                        while k < m
                            invariant
                                k <= m,
                                m == cc@.len(),
                                cc == cards@[j as int],
                                j < cards@.len(),
                                grid == grid_view(cards@),
                                s@ == colhead + cards_lines(grid[j as int].take(k as int)),
                            decreases m - k,
                        {
                            let ghost s1 = s@;
                            s.append("    ");
                            match &cc[k].headline {
                                Some(h) => s.append(h.as_str()),
                                None => s.append("<missing headline>"),
                            }
                            s.append("\n");
                            k = k + 1;
                            proof {
                                assert(grid[j as int].take(k as int).drop_last()
                                    =~= grid[j as int].take(k - 1));
                                assert(grid[j as int].take(k as int).last() == grid[j as int][k
                                    - 1]);
                                assert(grid[j as int][k - 1] == cc@[k - 1]@);
                                assert(s@ =~= s1 + "    "@ + headline_text(grid[j as int][k - 1])
                                    + "\n"@);
                            }
                            proof {
                                assert(s@ =~= colhead + cards_lines(grid[j as int].take(k as int)));
                            }
                        }
                        proof {
                            assert(grid[j as int].take(m as int) =~= grid[j as int]);
                            assert(s@ =~= s0 + col_block(cols[j as int], grid[j as int]));
                        }
                    }
                    j = j + 1;
                    proof {
                        if !(cols[j - 1].show_headlines_in_summary == Some(true)) {
                            assert(s@ =~= s0 + Seq::<char>::empty());
                        }
                        assert(s@ =~= head + cols_blocks_up_to(cols, grid, j as int));
                    }
                }
            },
            None => {},
        }
        let ghost mid = s@;
        if self.notes.len() > 0 {
            s.append("\n  Notes:");
            let ghost nhead = mid + "\n  Notes:"@;
            proof {
                assert(s@ =~= nhead);
            }
            let cap: usize = if self.notes.len() > 3 {
                3
            } else {
                self.notes.len()
            };
            let mut t: usize = 0;
            while t < cap
                invariant
                    t <= cap,
                    cap <= self.notes@.len(),
                    s@ == nhead + notes_lines_up_to(notes_view(self.notes@), t as int),
                decreases cap - t,
            {
                let ghost s2 = s@;
                s.append("\n    ");
                let ind = indent_text(self.notes[t].text.as_str());
                s.append(ind.as_str());
                t = t + 1;
                proof {
                    assert(notes_view(self.notes@)[t - 1] == self.notes@[t - 1]@);
                    assert(s@ =~= s2 + "\n    "@ + indented(notes_view(self.notes@)[t - 1].text));
                }
                proof {
                    assert(s@ =~= nhead + notes_lines_up_to(notes_view(self.notes@), t as int));
                }
            }
            proof {
                assert(self@.notes.len() > 0);
                assert(cap as int == if self@.notes.len() > 3 {
                    3int
                } else {
                    self@.notes.len() as int
                });
                assert(s@ =~= mid + notes_block(self@.notes));
            }
        } else {
            proof {
                assert(notes_view(self.notes@).len() == 0);
                assert(s@ =~= mid + notes_block(self@.notes));
            }
        }
        proof {
            match self@.board {
                Some(bs) => {
                    assert(mid == head + cols_blocks_up_to(bs.columns, grid, bs.columns.len() as int));
                },
                None => {
                    assert(mid =~= head + Seq::<char>::empty());
                },
            }
            assert(s@ =~= spec_summary(self@, grid));
        }
        s
    }
}

// ------------------------------------------------------------------
// All workspaces, most recent first
// ------------------------------------------------------------------

/// Whether the workspaces are in descending order of modification time.
pub open spec fn sorted_desc(s: Seq<Workspace>) -> bool {
    forall|i: int, j: int|
        0 <= i <= j < s.len() ==> (#[trigger] s[i]).updated_at >= (#[trigger] s[j]).updated_at
}

/// Orders workspaces by recency, most recently modified first: the same
/// workspaces, sorted descending by `updated_at`.
pub fn workspaces(list: Vec<Workspace>) -> (r: Vec<Workspace>)
    ensures
        sorted_desc(r@),
        r@.to_multiset() == list@.to_multiset(),
{
    let mut src = list;
    let mut out: Vec<Workspace> = Vec::new();
    proof {
        assert(out@.to_multiset().add(src@.to_multiset()) =~= list@.to_multiset());
    }
    while src.len() > 0
        invariant
            out@.to_multiset().add(src@.to_multiset()) == list@.to_multiset(),
            sorted_desc(out@),
            forall|a: int, b: int|
                0 <= a < out@.len() && 0 <= b < src@.len() ==> (#[trigger] out@[a]).updated_at >= (
                #[trigger] src@[b]).updated_at,
        decreases src@.len(),
    {
        let m = src.len();
        let mut mi: usize = 0;
        let mut k: usize = 1;
        while k < m
            invariant
                mi < k <= m,
                m == src@.len(),
                forall|t: int| 0 <= t < k ==> src@[mi as int].updated_at >= (#[trigger] src@[t]).updated_at,
            decreases m - k,
        {
            if src[k].updated_at > src[mi].updated_at {
                mi = k;
            }
            k = k + 1;
        }
        let ghost src0 = src@;
        let ghost out0 = out@;
        let x = src.remove(mi);
        let ghost xv = x;
        out.push(x);
        proof {
            assert(src0.contains(xv));
            assert(src0.to_multiset().count(xv) > 0);
            assert(src@.to_multiset() =~= src0.to_multiset().remove(xv));
            assert(out@.to_multiset() =~= out0.to_multiset().insert(xv));
            assert(out@.to_multiset().add(src@.to_multiset()) =~= out0.to_multiset().add(
                src0.to_multiset(),
            ));
            // the extracted workspace is no newer than anything already out,
            // and no older than anything still in
            assert forall|a: int, b: int|
                0 <= a < out@.len() && 0 <= b < src@.len() implies (#[trigger] out@[a]).updated_at
                >= (#[trigger] src@[b]).updated_at by {
                if b < mi as int {
                    assert(src@[b] == src0[b]);
                } else {
                    assert(src@[b] == src0[b + 1]);
                }
                if a < out0.len() {
                    assert(out@[a] == out0[a]);
                } else {
                    assert(out@[a] == xv);
                }
            }
            assert forall|i: int, j: int|
                0 <= i <= j < out@.len() implies (#[trigger] out@[i]).updated_at >= (
            #[trigger] out@[j]).updated_at by {
                if j < out0.len() {
                    assert(out@[i] == out0[i] && out@[j] == out0[j]);
                } else if i < out0.len() {
                    assert(out@[i] == out0[i] && out@[j] == xv);
                    assert(out0[i].updated_at >= src0[mi as int].updated_at);
                }
            }
        }
    }
    proof {
        assert(src@.to_multiset().len() == 0);
        assert(out@.to_multiset().add(src@.to_multiset()) =~= out@.to_multiset());
    }
    out
}

// ------------------------------------------------------------------
// Locating the current workspace under the parent directory
// ------------------------------------------------------------------

/// Whether `p` lies strictly inside `root`.
pub open spec fn strictly_under(root: Seq<char>, p: Seq<char>) -> bool {
    p.len() > root.len() && p.take(root.len() as int) == root && p[root.len() as int] == '/'
}

/// The workspace the working directory lies in: the direct child of the
/// workspace parent directory `root` on the way to `cwd`, or none when `cwd`
/// is not strictly inside `root`.
pub fn find_current_workspace(root: &str, cwd: &str) -> (r: Option<String>)
    ensures
        match r {
            Some(p) => strictly_under(root@, cwd@) && p@ == path_join(
                root@,
                first_component(cwd@.skip(root@.len() as int + 1)),
            ),
            None => !strictly_under(root@, cwd@),
        },
{
    let rv = str_chars(root);
    let cv = str_chars(cwd);
    let rn = rv.len();
    let cn = cv.len();
    if cn <= rn {
        return None;
    }
    if !str_starts_with(cwd, root) {
        proof {
            assert(!root@.is_prefix_of(cwd@));
            assert(cwd@.take(root@.len() as int) =~= cwd@.subrange(0, root@.len() as int));
        }
        return None;
    }
    if cv[rn] != '/' {
        return None;
    }
    proof {
        assert(cwd@.take(root@.len() as int) == root@);
    }
    let rest = vec_subrange(&cv, rn + 1, cn);
    let comp = match find_char(&rest, '/', 0) {
        Some(p) => vec_subrange(&rest, 0, p),
        None => rest,
    };
    proof {
        let restv = cwd@.skip(root@.len() as int + 1);
        assert(restv =~= cv@.subrange(rn + 1, cn as int));
        lemma_first_component_take(restv, comp@.len() as int);
    }
    let comp_s = chars_to_string(&comp);
    Some(join(root, comp_s.as_str()))
}

/// The prefix before the first separator is the first component.
proof fn lemma_first_component_take(s: Seq<char>, i: int)
    requires
        0 <= i <= s.len(),
        forall|k: int| 0 <= k < i ==> s[k] != '/',
        i < s.len() ==> s[i] == '/',
    ensures
        first_component(s) == s.take(i),
    decreases i,
{
    if i == 0 {
        assert(s.take(0) =~= Seq::<char>::empty());
    } else {
        assert(s.first() != '/');
        assert(s.drop_first() =~= s.skip(1));
        lemma_first_component_take(s.drop_first(), i - 1);
        assert(seq![s.first()] + s.drop_first().take(i - 1) =~= s.take(i));
    }
}

// ------------------------------------------------------------------
// Initializing a workspace
// ------------------------------------------------------------------

/// The board configuration a fresh workspace starts with.
pub fn default_board_config() -> (r: &'static str)
    ensures
        r@ == default_board_config_text(),
{
    "[[columns]]\nname = \"To Do\"\ndir_name = \"to_do\"\nlimit = 7\nshow_headlines_in_summary = true\n\n[[columns]]\nname = \"In Progress\"\ndir_name = \"in_progress\"\nlimit = 1\nshow_headlines_in_summary = true\n\n[[columns]]\nname = \"Done\"\ndir_name = \"done\"\ndisplay = 10\nsort_by = \"last_moved_at\"\nsort_order = \"desc\"\n"
}

/// The text of the starting configuration.
pub open spec fn default_board_config_text() -> Seq<char> {
    "[[columns]]\nname = \"To Do\"\ndir_name = \"to_do\"\nlimit = 7\nshow_headlines_in_summary = true\n\n[[columns]]\nname = \"In Progress\"\ndir_name = \"in_progress\"\nlimit = 1\nshow_headlines_in_summary = true\n\n[[columns]]\nname = \"Done\"\ndir_name = \"done\"\ndisplay = 10\nsort_by = \"last_moved_at\"\nsort_order = \"desc\"\n"@
}

/// Where a new workspace goes: under the parent directory `root` when a name
/// is given, else the working directory itself, which must lie directly
/// under `root`.
pub fn init_workspace(root: &str, name: Option<&str>, cwd: &str) -> (r: Result<
    String,
    KanbanError,
>)
    ensures
        match r {
            Ok(p) => match name {
                Some(n) => p@ == path_join(root@, n@),
                None => parent_of(cwd@) == root@ && p@ == cwd@,
            },
            Err(e) => name is None && parent_of(cwd@) != root@ && e == KanbanError::InitFailed,
        },
{
    match name {
        Some(n) => Ok(join(root, n)),
        None => {
            match parent(cwd) {
                Some(p) => {
                    let pv = str_chars(p.as_str());
                    if vec_eq_str(&pv, root) {
                        Ok(String::from_str(cwd))
                    } else {
                        Err(KanbanError::InitFailed)
                    }
                },
                None => {
                    proof {
                        if parent_of(cwd@) == root@ {
                            assert(root@.len() == 0);
                        }
                    }
                    let rv = str_chars(root);
                    if rv.len() == 0 {
                        proof {
                            assert(parent_of(cwd@) =~= root@);
                        }
                        Ok(String::from_str(cwd))
                    } else {
                        Err(KanbanError::InitFailed)
                    }
                },
            }
        },
    }
}

} // verus!
