//! Cards: one task each, stored as a frontmatter-annotated markdown file.
//!
//! A card file is a frontmatter block between `---` delimiter lines, then a
//! body whose leading excerpt (up to the next `---` line) carries the
//! headline. The frontmatter may carry `last_moved_at`, an RFC 3339
//! timestamp. A card's identity is its file path; its content is derived by
//! parsing the file text on every read.

use vstd::prelude::*;
use crate::KanbanError;
use crate::board::Column;
use crate::kv::{
    kv_of_line, quoted_inner, is_table_header, kv_extract, quoted_extract, table_header,
    kv_line_text, kv_line, quoted, plain_key, plain_val, lemma_kv_line_text,
};
use crate::paths::{path_join, file_name_of, join, file_name};
use crate::text::{
    spec_trim, trim_start, is_ws, spec_lines, join_sep, join_nl, line_free, lines_view,
    opt_str_view, str_chars, chars_to_string, split_lines, trim_vec, vec_eq_str, vec_subrange,
    ws_char, join_lines, lemma_trim_start_skip, lemma_trim_end_prefix, lemma_lines_of_join,
    lemma_lines_acc_line_free,
};
use crate::time::{rfc3339_parse, rfc3339_of, ts_in_range, parse_rfc3339, format_rfc3339};

verus! {

// ------------------------------------------------------------------
// The model types
// ------------------------------------------------------------------

/// The mathematical value of a card.
pub struct CardSpec {
    pub file_path: Seq<char>,
    pub headline: Option<Seq<char>>,
    pub last_moved_at: Option<int>,
}

/// One task. `file_path` is its identity; `headline` and `last_moved_at` are
/// what its file text yields.
pub struct Card {
    pub file_path: String,
    pub headline: Option<String>,
    pub last_moved_at: Option<i64>,
}

impl View for Card {
    type V = CardSpec;

    open spec fn view(&self) -> CardSpec {
        CardSpec {
            file_path: self.file_path@,
            headline: opt_str_view(self.headline),
            last_moved_at: match self.last_moved_at {
                Some(t) => Some(t as int),
                None => None,
            },
        }
    }
}

impl Clone for Card {
    fn clone(&self) -> (r: Card)
        ensures
            r == *self,
    {
        Card {
            file_path: self.file_path.clone(),
            headline: match &self.headline {
                Some(h) => Some(h.clone()),
                None => None,
            },
            last_moved_at: self.last_moved_at,
        }
    }
}

/// The mathematical value of one file of a column directory.
pub struct CardFileSpec {
    pub path: Seq<char>,
    pub contents: Seq<char>,
}

/// One file of a column directory: its path and its text, as the caller read
/// them.
pub struct CardFile {
    pub path: String,
    pub contents: String,
}

impl View for CardFile {
    type V = CardFileSpec;

    open spec fn view(&self) -> CardFileSpec {
        CardFileSpec { path: self.path@, contents: self.contents@ }
    }
}

impl Clone for CardFile {
    fn clone(&self) -> (r: CardFile)
        ensures
            r == *self,
    {
        CardFile { path: self.path.clone(), contents: self.contents.clone() }
    }
}

/// The views of a sequence of cards.
pub open spec fn cards_view(v: Seq<Card>) -> Seq<CardSpec> {
    v.map_values(|c: Card| c@)
}

/// The views of a sequence of card files.
pub open spec fn files_view(v: Seq<CardFile>) -> Seq<CardFileSpec> {
    v.map_values(|f: CardFile| f@)
}

// ------------------------------------------------------------------
// The file format, as spec functions over lines
// ------------------------------------------------------------------

/// Whether a line delimits the frontmatter or the excerpt.
pub open spec fn is_delim(l: Seq<char>) -> bool {
    spec_trim(l) == "---"@
}

/// The first delimiter line at or after `from`, or -1.
pub open spec fn find_delim_from(lines: Seq<Seq<char>>, from: int) -> int
    decreases lines.len() - from,
{
    if from < 0 || from >= lines.len() {
        -1
    } else if is_delim(lines[from]) {
        from
    } else {
        find_delim_from(lines, from + 1)
    }
}

/// Where a delimiter stands at `i` and nowhere earlier, the search finds `i`.
pub proof fn lemma_find_delim_at(lines: Seq<Seq<char>>, from: int, i: int)
    requires
        0 <= from <= i < lines.len(),
        is_delim(lines[i]),
        forall|k: int| from <= k < i ==> !is_delim(lines[k]),
    ensures
        find_delim_from(lines, from) == i,
    decreases i - from,
{
    if from < i {
        lemma_find_delim_at(lines, from + 1, i);
    }
}

/// Where no delimiter stands at or after `from`, the search fails.
pub proof fn lemma_find_delim_none(lines: Seq<Seq<char>>, from: int)
    requires
        0 <= from <= lines.len(),
        forall|k: int| from <= k < lines.len() ==> !is_delim(lines[k]),
    ensures
        find_delim_from(lines, from) == -1,
    decreases lines.len() - from,
{
    if from < lines.len() {
        lemma_find_delim_none(lines, from + 1);
    }
}

/// Whether the document opens with a delimited frontmatter block.
pub open spec fn has_frontmatter(lines: Seq<Seq<char>>) -> bool {
    lines.len() > 0 && is_delim(lines[0]) && find_delim_from(lines, 1) >= 0
}

/// The frontmatter lines, between the two delimiters.
pub open spec fn fm_of(lines: Seq<Seq<char>>) -> Seq<Seq<char>> {
    lines.subrange(1, find_delim_from(lines, 1))
}

/// The body lines, after the closing delimiter.
pub open spec fn body_of(lines: Seq<Seq<char>>) -> Seq<Seq<char>> {
    lines.skip(find_delim_from(lines, 1) + 1)
}

/// The excerpt: the body up to the next delimiter line, absent without one.
pub open spec fn excerpt_of(body: Seq<Seq<char>>) -> Option<Seq<char>> {
    let e = find_delim_from(body, 0);
    if e < 0 {
        None
    } else {
        Some(join_sep(body.take(e)))
    }
}

/// `s` without its leading `'#'` markers.
pub open spec fn drop_hashes(s: Seq<char>) -> Seq<char>
    decreases s.len(),
{
    if s.len() > 0 && s.first() == '#' {
        drop_hashes(s.drop_first())
    } else {
        s
    }
}

/// `drop_hashes` skips exactly the leading `'#'` run.
pub proof fn lemma_drop_hashes_skip(s: Seq<char>, i: int)
    requires
        0 <= i <= s.len(),
        forall|k: int| 0 <= k < i ==> s[k] == '#',
        i < s.len() ==> s[i] != '#',
    ensures
        drop_hashes(s) == s.skip(i),
    decreases i,
{
    if i == 0 {
        assert(s.skip(0) =~= s);
    } else {
        assert(s.first() == '#');
        lemma_drop_hashes_skip(s.drop_first(), i - 1);
        assert(s.drop_first().skip(i - 1) =~= s.skip(i));
    }
}

/// The headline an excerpt yields: leading `'#'` markers and surrounding
/// whitespace stripped.
pub open spec fn clean_headline_of(e: Seq<char>) -> Seq<char> {
    spec_trim(drop_hashes(trim_start(e)))
}

/// The headline of a document: the cleaned excerpt, absent when there is no
/// excerpt or nothing is left after cleaning.
pub open spec fn headline_of(lines: Seq<Seq<char>>) -> Option<Seq<char>> {
    match excerpt_of(body_of(lines)) {
        Some(e) => {
            let h = clean_headline_of(e);
            if h.len() == 0 {
                None
            } else {
                Some(h)
            }
        },
        None => None,
    }
}

/// Whether a frontmatter line is passed over by the timestamp scan: it opens
/// no table and is no `last_moved_at` key-value line.
pub open spec fn fm_skip_line(l: Seq<char>) -> bool {
    !is_table_header(l) && match kv_of_line(l) {
        Some(kv) => kv.0 != "last_moved_at"@,
        None => true,
    }
}

/// The index of the frontmatter's top-level `last_moved_at` line, or -1:
/// the scan ends at the first table header.
pub open spec fn fm_ts_idx(fm: Seq<Seq<char>>) -> int
    decreases fm.len(),
{
    if fm.len() == 0 {
        -1
    } else if is_table_header(fm.first()) {
        -1
    } else if !fm_skip_line(fm.first()) {
        0
    } else {
        let r = fm_ts_idx(fm.drop_first());
        if r < 0 {
            -1
        } else {
            r + 1
        }
    }
}

/// Where every earlier line is passed over and line `j` carries the key,
/// the scan finds `j`.
pub proof fn lemma_fm_ts_idx_at(fm: Seq<Seq<char>>, j: int)
    requires
        0 <= j < fm.len(),
        forall|k: int| 0 <= k < j ==> fm_skip_line(#[trigger] fm[k]),
        !fm_skip_line(fm[j]),
        !is_table_header(fm[j]),
    ensures
        fm_ts_idx(fm) == j,
    decreases j,
{
    if j == 0 {
    } else {
        assert(fm_skip_line(fm.first()));
        lemma_fm_ts_idx_at(fm.drop_first(), j - 1);
    }
}

/// Where every line up to `j` is passed over and `j` is the end or a table
/// header, the scan fails.
pub proof fn lemma_fm_ts_idx_none(fm: Seq<Seq<char>>, j: int)
    requires
        0 <= j <= fm.len(),
        forall|k: int| 0 <= k < j ==> fm_skip_line(#[trigger] fm[k]),
        j == fm.len() || is_table_header(fm[j]),
    ensures
        fm_ts_idx(fm) == -1,
    decreases j,
{
    if fm.len() == 0 {
    } else if j == 0 {
    } else {
        assert(fm_skip_line(fm.first()));
        lemma_fm_ts_idx_none(fm.drop_first(), j - 1);
    }
}

/// A found timestamp line is in range and carries the key.
pub proof fn lemma_fm_ts_idx_props(fm: Seq<Seq<char>>)
    ensures
        fm_ts_idx(fm) >= 0 ==> 0 <= fm_ts_idx(fm) < fm.len() && !fm_skip_line(fm[fm_ts_idx(fm)])
            && !is_table_header(fm[fm_ts_idx(fm)]),
    decreases fm.len(),
{
    if fm.len() > 0 && !is_table_header(fm.first()) && fm_skip_line(fm.first()) {
        lemma_fm_ts_idx_props(fm.drop_first());
        if fm_ts_idx(fm.drop_first()) >= 0 {
            assert(fm[fm_ts_idx(fm)] == fm.drop_first()[fm_ts_idx(fm) - 1]);
        }
    }
}

/// The raw `last_moved_at` value of a frontmatter, when its line is present
/// and its value is a quoted string.
pub open spec fn fm_ts_raw(fm: Seq<Seq<char>>) -> Option<Seq<char>> {
    let i = fm_ts_idx(fm);
    if i < 0 {
        None
    } else {
        match kv_of_line(fm[i]) {
            Some(kv) => quoted_inner(kv.1),
            None => None,
        }
    }
}

/// The timestamp of a document: the raw frontmatter value, parsed as
/// RFC 3339; absent when missing or malformed.
pub open spec fn ts_of(lines: Seq<Seq<char>>) -> Option<int> {
    match fm_ts_raw(fm_of(lines)) {
        Some(raw) => rfc3339_parse(raw),
        None => None,
    }
}

/// What parsing a card file yields: its path, headline and timestamp; `None`
/// when the document has no frontmatter block.
pub open spec fn spec_parse_card(path: Seq<char>, text: Seq<char>) -> Option<CardSpec> {
    let lines = spec_lines(text);
    if has_frontmatter(lines) {
        Some(
            CardSpec {
                file_path: path,
                headline: headline_of(lines),
                last_moved_at: ts_of(lines),
            },
        )
    } else {
        None
    }
}

// ------------------------------------------------------------------
// Parsing, executable
// ------------------------------------------------------------------

/// Whether `l` is a delimiter line.
fn delim_line(l: &Vec<char>) -> (r: bool)
    ensures
        r == is_delim(l@),
{
    let t = trim_vec(l);
    vec_eq_str(&t, "---")
}

/// The first delimiter line at or after `from`, if any.
fn find_delim(lines: &Vec<Vec<char>>, from: usize) -> (r: Option<usize>)
    requires
        from <= lines@.len(),
    ensures
        match r {
            Some(p) => from <= p < lines@.len() && is_delim(lines@[p as int]@) && forall|k: int|
                from <= k < p ==> !is_delim(lines@[k]@),
            None => forall|k: int| from <= k < lines@.len() ==> !is_delim(lines@[k]@),
        },
{
    let n = lines.len();
    let mut i: usize = from;
    while i < n
        invariant
            from <= i <= n,
            n == lines@.len(),
            forall|k: int| from <= k < i ==> !is_delim(lines@[k]@),
        decreases n - i,
    {
        if delim_line(&lines[i]) {
            return Some(i);
        }
        i = i + 1;
    }
    None
}

/// The absolute index of the frontmatter timestamp line among lines
/// `[lo, hi)`, if the scan finds one.
fn scan_ts(lines: &Vec<Vec<char>>, lo: usize, hi: usize) -> (r: Option<usize>)
    requires
        lo <= hi <= lines@.len(),
    ensures
        match r {
            Some(p) => lo <= p < hi && fm_ts_idx(lines_view(lines@).subrange(lo as int, hi as int))
                == p - lo && !fm_skip_line(lines@[p as int]@) && !is_table_header(
                lines@[p as int]@,
            ),
            None => fm_ts_idx(lines_view(lines@).subrange(lo as int, hi as int)) == -1,
        },
{
    let ghost sub = lines_view(lines@).subrange(lo as int, hi as int);
    let mut i: usize = lo;
    while i < hi
        invariant
            lo <= i <= hi <= lines@.len(),
            sub == lines_view(lines@).subrange(lo as int, hi as int),
            forall|k: int| 0 <= k < i - lo ==> fm_skip_line(#[trigger] sub[k]),
        decreases hi - i,
    {
        proof {
            assert(sub[i - lo] == lines@[i as int]@);
        }
        if table_header(&lines[i]) {
            proof {
                lemma_fm_ts_idx_none(sub, i - lo);
            }
            return None;
        }
        match kv_extract(&lines[i]) {
            Some((k, _v)) => {
                if vec_eq_str(&k, "last_moved_at") {
                    proof {
                        assert(!fm_skip_line(sub[i - lo]));
                        lemma_fm_ts_idx_at(sub, i - lo);
                    }
                    return Some(i);
                }
            },
            None => {},
        }
        i = i + 1;
    }
    proof {
        lemma_fm_ts_idx_none(sub, hi - lo);
    }
    None
}

/// Joining one more line to a nonempty join adds a separator and the line.
pub proof fn lemma_join_sep_push(lines: Seq<Seq<char>>, l: Seq<char>)
    ensures
        join_sep(lines.push(l)) == if lines.len() == 0 {
            l
        } else {
            join_sep(lines) + seq!['\n'] + l
        },
    decreases lines.len(),
{
    let p = lines.push(l);
    if lines.len() == 0 {
        assert(p.len() == 1);
        assert(p.first() == l);
    } else {
        assert(p.first() == lines.first());
        assert(p.drop_first() =~= lines.drop_first().push(l));
        lemma_join_sep_push(lines.drop_first(), l);
        if lines.len() == 1 {
            assert(join_sep(lines) == lines.first());
        } else {
            assert(lines.first() + seq!['\n'] + (join_sep(lines.drop_first()) + seq!['\n'] + l)
                =~= (lines.first() + seq!['\n'] + join_sep(lines.drop_first())) + seq!['\n'] + l);
        }
    }
}

/// Lines `[lo, hi)` joined with `'\n'` between them.
fn join_sep_range(lines: &Vec<Vec<char>>, lo: usize, hi: usize) -> (r: Vec<char>)
    requires
        lo <= hi <= lines@.len(),
    ensures
        r@ == join_sep(lines_view(lines@).subrange(lo as int, hi as int)),
{
    let ghost sub = lines_view(lines@).subrange(lo as int, hi as int);
    let mut r: Vec<char> = Vec::new();
    let mut i: usize = lo;
    proof {
        assert(sub.take(0) =~= Seq::<Seq<char>>::empty());
    }
    while i < hi
        invariant
            lo <= i <= hi <= lines@.len(),
            sub == lines_view(lines@).subrange(lo as int, hi as int),
            r@ == join_sep(sub.take(i - lo)),
        decreases hi - i,
    {
        let ghost r0 = r@;
        if i > lo {
            r.push('\n');
        }
        crate::text::append_chars(&mut r, &lines[i]);
        i = i + 1;
        proof {
            let j = i - lo;
            assert(sub.take(j - 1).push(sub[j - 1]) =~= sub.take(j));
            lemma_join_sep_push(sub.take(j - 1), sub[j - 1]);
            assert(sub[j - 1] == lines@[i - 1]@);
            if j == 1 {
                assert(r0 =~= Seq::<char>::empty());
                assert(r@ =~= sub[0]);
            } else {
                assert(r@ =~= r0.push('\n') + lines@[i - 1]@);
                assert(r0.push('\n') + sub[j - 1] =~= r0 + seq!['\n'] + sub[j - 1]);
            }
        }
    }
    proof {
        assert(sub.take(hi - lo) =~= sub);
    }
    r
}

/// The headline text an excerpt yields.
fn clean_headline(e: &Vec<char>) -> (r: Vec<char>)
    ensures
        r@ == clean_headline_of(e@),
{
    let n = e.len();
    let mut i: usize = 0;
    while i < n && ws_char(e[i])
        invariant
            i <= n,
            n == e@.len(),
            forall|k: int| 0 <= k < i ==> is_ws(e@[k]),
        decreases n - i,
    {
        i = i + 1;
    }
    proof {
        lemma_trim_start_skip(e@, i as int);
    }
    let mut j: usize = i;
    while j < n && e[j] == '#'
        invariant
            i <= j <= n,
            n == e@.len(),
            forall|k: int| i <= k < j ==> e@[k] == '#',
        decreases n - j,
    {
        j = j + 1;
    }
    proof {
        let t = e@.skip(i as int);
        assert(forall|k: int| 0 <= k < j - i ==> t[k] == '#');
        lemma_drop_hashes_skip(t, j - i);
        assert(t.skip(j - i) =~= e@.skip(j as int));
        assert(e@.subrange(j as int, n as int) =~= e@.skip(j as int));
    }
    let rest = vec_subrange(e, j, n);
    trim_vec(&rest)
}

/// Parses one card file: `path` is the card's identity, `text` the file's
/// content. Succeeds exactly when the document opens with a delimited
/// frontmatter block; a missing or malformed timestamp or headline is not
/// fatal, the field is absent instead.
pub fn load_card(path: &str, text: &str) -> (r: Result<Card, KanbanError>)
    ensures
        match r {
            Ok(c) => spec_parse_card(path@, text@) == Some(c@),
            Err(e) => spec_parse_card(path@, text@) is None && e == KanbanError::CardParseError,
        },
{
    let v = str_chars(text);
    let lines = split_lines(&v);
    let ghost lv = lines_view(lines@);
    proof {
        assert(lv == spec_lines(text@));
    }
    let n = lines.len();
    if n == 0 {
        return Err(KanbanError::CardParseError);
    }
    if !delim_line(&lines[0]) {
        return Err(KanbanError::CardParseError);
    }
    let close = match find_delim(&lines, 1) {
        Some(c) => c,
        None => {
            proof {
                lemma_find_delim_none(lv, 1);
            }
            return Err(KanbanError::CardParseError);
        },
    };
    proof {
        lemma_find_delim_at(lv, 1, close as int);
        assert(has_frontmatter(lv));
    }
    let ghost fm = fm_of(lv);

    // the timestamp, from the frontmatter
    let last_moved_at: Option<i64> = match scan_ts(&lines, 1, close) {
        Some(p) => {
            proof {
                assert(lv.subrange(1, close as int) =~= fm);
                assert(fm[p - 1] == lv[p as int]);
            }
            match kv_extract(&lines[p]) {
                Some((_k, val)) => {
                    match quoted_extract(&val) {
                        Some(raw) => {
                            let raw_s = chars_to_string(&raw);
                            proof {
                                assert(fm_ts_raw(fm) == Some(raw@));
                            }
                            match parse_rfc3339(raw_s.as_str()) {
                                Some(t) => Some(t),
                                None => None,
                            }
                        },
                        None => None,
                    }
                },
                None => {
                    proof {
                        assert(!fm_skip_line(fm[p - 1]));
                        assert(false);
                    }
                    None
                },
            }
        },
        None => {
            proof {
                assert(lv.subrange(1, close as int) =~= fm);
            }
            None
        },
    };

    // the headline, from the excerpt
    let ghost body = body_of(lv);
    let headline: Option<String> = match find_delim(&lines, close + 1) {
        Some(e) => {
            proof {
                assert(body =~= lv.skip(close + 1));
                assert(forall|k: int|
                    0 <= k < e - (close + 1) ==> body[k] == lv[k + close + 1]);
                assert(body[e - (close + 1)] == lv[e as int]);
                lemma_find_delim_at(body, 0, e - (close + 1));
            }
            let ex = join_sep_range(&lines, close + 1, e);
            proof {
                assert(lv.subrange(close + 1, e as int) =~= body.take(e - (close + 1)));
            }
            let h = clean_headline(&ex);
            if h.len() == 0 {
                None
            } else {
                Some(chars_to_string(&h))
            }
        },
        None => {
            proof {
                assert(body =~= lv.skip(close + 1));
                assert(forall|k: int|
                    0 <= k < body.len() ==> body[k] == lv[k + close + 1]);
                lemma_find_delim_none(body, 0);
            }
            None
        },
    };

    let card = Card { file_path: String::from_str(path), headline, last_moved_at };
    Ok(card)
}

// ------------------------------------------------------------------
// Column listings
// ------------------------------------------------------------------

/// Whether a path names a markdown document.
pub open spec fn is_md(p: Seq<char>) -> bool {
    p.len() >= 3 && p.skip(p.len() - 3) == ".md"@
}

/// Whether `p` names a markdown document.
pub fn md_path(p: &str) -> (r: bool)
    ensures
        r == is_md(p@),
{
    let v = str_chars(p);
    let n = v.len();
    if n < 3 {
        return false;
    }
    proof {
        reveal_strlit(".md");
    }
    let r = v[n - 3] == '.' && v[n - 2] == 'm' && v[n - 1] == 'd';
    proof {
        let t = v@.skip(n - 3);
        assert(t.len() == 3);
        assert(t[0] == v@[n - 3]);
        assert(t[1] == v@[n - 2]);
        assert(t[2] == v@[n - 1]);
        if r {
            assert(t =~= ".md"@);
        } else {
            assert(t != ".md"@);
        }
    }
    r
}

/// The cards a column listing yields: each markdown file that parses, in
/// listing order.
pub open spec fn spec_col_cards(files: Seq<CardFileSpec>) -> Seq<CardSpec>
    decreases files.len(),
{
    if files.len() == 0 {
        Seq::empty()
    } else {
        let rest = spec_col_cards(files.drop_last());
        let f = files.last();
        if is_md(f.path) && spec_parse_card(f.path, f.contents) is Some {
            rest.push(spec_parse_card(f.path, f.contents).unwrap())
        } else {
            rest
        }
    }
}

// ------------------------------------------------------------------
// Writing card files
// ------------------------------------------------------------------

/// The first delimiter at or after `from`, characterized.
pub proof fn lemma_find_delim_props(lines: Seq<Seq<char>>, from: int)
    requires
        0 <= from <= lines.len(),
    ensures
        find_delim_from(lines, from) >= 0 ==> from <= find_delim_from(lines, from) < lines.len()
            && is_delim(lines[find_delim_from(lines, from)]) && forall|k: int|
            from <= k < find_delim_from(lines, from) ==> !is_delim(lines[k]),
        find_delim_from(lines, from) < 0 ==> forall|k: int|
            from <= k < lines.len() ==> !is_delim(lines[k]),
    decreases lines.len() - from,
{
    if from < lines.len() && !is_delim(lines[from]) {
        lemma_find_delim_props(lines, from + 1);
    }
}

/// A line that begins with `'#'` is no delimiter.
pub proof fn lemma_hash_line_not_delim(l: Seq<char>)
    requires
        l.len() > 0,
        l.first() == '#',
    ensures
        !is_delim(l),
{
    reveal_strlit("---");
    assert(trim_start(l) == l);
    lemma_trim_end_prefix(l);
    let t = spec_trim(l);
    if t.len() == 0 {
        assert(t != "---"@);
    } else {
        assert(t[0] == '#');
        assert("---"@[0] == '-');
        assert(t != "---"@);
    }
}

/// A `key = "val"` line of a plain key is no delimiter.
pub proof fn lemma_kv_line_not_delim(key: Seq<char>, val: Seq<char>)
    requires
        plain_key(key),
        plain_val(val),
    ensures
        !is_delim(kv_line_text(key, val)),
{
    reveal_strlit("---");
    lemma_kv_line_text(key, val);
    let l = kv_line_text(key, val);
    assert(spec_trim(l)[0] == key[0]);
    assert(key[0] != '-');
    assert("---"@[0] == '-');
    assert(spec_trim(l) != "---"@);
}

/// `s` with every space replaced by an underscore.
pub open spec fn underscored(s: Seq<char>) -> Seq<char> {
    s.map_values(|c: char| if c == ' ' { '_' } else { c })
}

/// The file name a headline yields: lowercase, spaces as underscores, the
/// markdown suffix appended.
pub open spec fn card_file_name(h: Seq<char>) -> Seq<char> {
    crate::text::lower_of(underscored(h)) + ".md"@
}

/// The file name for a card with headline `h`.
pub fn file_name_for_headline(h: &str) -> (r: String)
    ensures
        r@ == card_file_name(h@),
{
    let v = str_chars(h);
    let mut u: Vec<char> = Vec::new();
    let n = v.len();
    let mut i: usize = 0;
    proof {
        assert(u@ =~= underscored(v@.take(0)));
    }
    while i < n
        invariant
            i <= n,
            n == v@.len(),
            u@ == underscored(v@.take(i as int)),
        decreases n - i,
    {
        let c = v[i];
        if c == ' ' {
            u.push('_');
        } else {
            u.push(c);
        }
        i = i + 1;
        proof {
            assert(u@ =~= underscored(v@.take(i as int)));
        }
    }
    proof {
        assert(v@.take(n as int) =~= v@);
    }
    let us = chars_to_string(&u);
    let mut low = crate::text::lowercase(us.as_str());
    low.append(".md");
    low
}

/// `v`, copied.
fn copy_line(l: &Vec<char>) -> (r: Vec<char>)
    ensures
        r@ == l@,
{
    let c = vec_subrange(l, 0, l.len());
    proof {
        assert(l@.subrange(0, l@.len() as int) =~= l@);
    }
    c
}

impl Card {
    /// The boilerplate document a new card starts from: frontmatter carrying
    /// the creation time and an initial `last_moved_at`, a heading seeded
    /// from the hint, and a placeholder body.
    pub fn boilerplate(headline: Option<&str>, now: i64) -> (r: String)
        requires
            ts_in_range(now as int),
            match headline {
                Some(h) => line_free(h@),
                None => true,
            },
        ensures
            ({
                let lines = spec_lines(r@);
                let hint: Seq<char> = match headline {
                    Some(h) => h@,
                    None => Seq::empty(),
                };
                &&& has_frontmatter(lines)
                &&& ts_of(lines) == Some(now as int)
                &&& headline_of(lines) == ({
                    let c = clean_headline_of("# "@ + hint);
                    if c.len() == 0 {
                        None::<Seq<char>>
                    } else {
                        Some(c)
                    }
                })
            }),
    {
        let ts = format_rfc3339(now);
        let l1 = kv_line("last_moved_at", ts.as_str());
        let l2 = kv_line("created", ts.as_str());
        let mut l4 = String::from_str("# ");
        match headline {
            Some(h) => l4.append(h),
            None => {},
        }
        let mut doc: Vec<Vec<char>> = Vec::new();
        doc.push(str_chars("---"));
        doc.push(str_chars(l1.as_str()));
        doc.push(str_chars(l2.as_str()));
        doc.push(str_chars("---"));
        doc.push(str_chars(l4.as_str()));
        doc.push(str_chars("---"));
        doc.push(str_chars(""));
        doc.push(str_chars("Card content here."));
        let out = join_lines(&doc);
        let r = chars_to_string(&out);
        proof {
            reveal_strlit("---");
            reveal_strlit("");
            reveal_strlit("# ");
            reveal_strlit("Card content here.");
            reveal_strlit("last_moved_at");
            reveal_strlit("created");
            let ghost hint: Seq<char> = match headline {
                Some(h) => h@,
                None => Seq::empty(),
            };
            assert(plain_key("last_moved_at"@));
            assert(plain_key("created"@));
            lemma_kv_line_text("last_moved_at"@, ts@);
            lemma_kv_line_text("created"@, ts@);
            lemma_kv_line_not_delim("last_moved_at"@, ts@);
            lemma_kv_line_not_delim("created"@, ts@);
            let lv = lines_view(doc@);
            assert(lv =~= seq![
                "---"@,
                kv_line_text("last_moved_at"@, ts@),
                kv_line_text("created"@, ts@),
                "---"@,
                "# "@ + hint,
                "---"@,
                ""@,
                "Card content here."@,
            ]);
            // every line is newline-free, so the join splits back
            assert(line_free("---"@));
            assert(line_free(""@));
            assert(line_free("# "@ + hint));
            assert(line_free("Card content here."@));
            lemma_lines_of_join(lv);
            assert(spec_lines(r@) == lv);
            // the frontmatter block: lines 0 and 3 delimit it
            assert(spec_trim("---"@) == "---"@);
            assert(is_delim("---"@));
            lemma_find_delim_at(lv, 1, 3);
            assert(has_frontmatter(lv));
            // the timestamp: the first frontmatter line carries it
            let fm = fm_of(lv);
            assert(fm =~= seq![
                kv_line_text("last_moved_at"@, ts@),
                kv_line_text("created"@, ts@),
            ]);
            assert(!fm_skip_line(fm[0]));
            lemma_fm_ts_idx_at(fm, 0);
            assert(fm_ts_raw(fm) == Some(ts@));
            assert(ts_of(lv) == Some(now as int));
            // the headline: the excerpt is the heading line alone
            let body = body_of(lv);
            assert(body =~= seq!["# "@ + hint, "---"@, ""@, "Card content here."@]);
            assert(("# "@ + hint).first() == '#');
            lemma_hash_line_not_delim("# "@ + hint);
            lemma_find_delim_at(body, 0, 1);
            assert(body.take(1) =~= seq!["# "@ + hint]);
            assert(join_sep(seq!["# "@ + hint]) == "# "@ + hint);
            assert(excerpt_of(body) == Some("# "@ + hint));
        }
        r
    }

    /// Files an edited card document: derives the card's file name from its
    /// headline and places it in `column`'s directory under the marker
    /// directory at `kanban_path`. Fails with `NoHeadline` when the document
    /// has no extractable heading, and with `CardParseError` when it has no
    /// frontmatter block.
    pub fn new(contents: &str, kanban_path: &str, column: &Column) -> (r: Result<
        Card,
        KanbanError,
    >)
        ensures
            ({
                let lines = spec_lines(contents@);
                match r {
                    Ok(c) => has_frontmatter(lines) && headline_of(lines) is Some && c@.headline
                        == headline_of(lines) && c@.last_moved_at is None && c@.file_path
                        == path_join(
                        path_join(kanban_path@, column@.dir_name),
                        card_file_name(headline_of(lines).unwrap()),
                    ),
                    Err(e) => (e == KanbanError::CardParseError && !has_frontmatter(lines)) || (e
                        == KanbanError::NoHeadline && has_frontmatter(lines) && headline_of(lines)
                        is None),
                }
            }),
    {
        // parse the edited document; its identity comes later, from the headline
        let parsed = match load_card("", contents) {
            Ok(c) => c,
            Err(_) => {
                return Err(KanbanError::CardParseError);
            },
        };
        let h = match parsed.headline {
            Some(h) => h,
            None => {
                return Err(KanbanError::NoHeadline);
            },
        };
        let fname = file_name_for_headline(h.as_str());
        let dir = join(kanban_path, column.dir_name.as_str());
        let fp = join(dir.as_str(), fname.as_str());
        Ok(Card { file_path: fp, headline: Some(h), last_moved_at: None })
    }
}

/// A single-line headline written as a heading reads back unchanged: the
/// boilerplate's heading round-trips through the parse, exactly, whenever
/// the headline is trimmed and nonempty.
pub proof fn lemma_heading_round_trip(h: Seq<char>)
    requires
        h.len() > 0,
        !is_ws(h.first()),
        !is_ws(h.last()),
    ensures
        clean_headline_of("# "@ + h) == h,
{
    reveal_strlit("# ");
    assert("# "@ =~= seq!['#', ' ']);
    let l = "# "@ + h;
    assert(l.first() == '#');
    assert(trim_start(l) == l);
    assert(l.drop_first() =~= seq![' '] + h);
    assert((seq![' '] + h).first() == ' ');
    assert(drop_hashes(seq![' '] + h) == seq![' '] + h);
    assert(drop_hashes(l) == seq![' '] + h);
    assert((seq![' '] + h).drop_first() =~= h);
    assert(trim_start(seq![' '] + h) == trim_start(h));
    assert(trim_start(h) == h);
    assert(crate::text::trim_end(h) == h);
}

/// The document with its frontmatter `last_moved_at` set to `ts_text`: the
/// new key-value line leads the frontmatter, the old line (when present)
/// leaves, everything else stays.
pub open spec fn spec_set_ts(lines: Seq<Seq<char>>, ts_text: Seq<char>) -> Seq<Seq<char>> {
    let close = find_delim_from(lines, 1);
    let fm = lines.subrange(1, close);
    let idx = fm_ts_idx(fm);
    let fm2 = if idx >= 0 {
        fm.subrange(0, idx) + fm.subrange(idx + 1, fm.len() as int)
    } else {
        fm
    };
    seq![lines[0], kv_line_text("last_moved_at"@, ts_text)] + fm2 + lines.skip(close)
}

/// Setting the timestamp keeps the document's shape: the frontmatter still
/// parses, now carrying `ts_text`, and the body is untouched.
pub proof fn lemma_set_ts_props(lines: Seq<Seq<char>>, ts_text: Seq<char>)
    requires
        has_frontmatter(lines),
        plain_val(ts_text),
        forall|i: int| 0 <= i < lines.len() ==> line_free(#[trigger] lines[i]),
    ensures
        ({
            let nl = spec_set_ts(lines, ts_text);
            &&& forall|i: int| 0 <= i < nl.len() ==> line_free(#[trigger] nl[i])
            &&& has_frontmatter(nl)
            &&& fm_ts_raw(fm_of(nl)) == Some(ts_text)
            &&& body_of(nl) == body_of(lines)
        }),
{
    reveal_strlit("last_moved_at");
    assert(plain_key("last_moved_at"@));
    lemma_kv_line_text("last_moved_at"@, ts_text);
    lemma_kv_line_not_delim("last_moved_at"@, ts_text);
    let kvl = kv_line_text("last_moved_at"@, ts_text);
    let close = find_delim_from(lines, 1);
    lemma_find_delim_props(lines, 1);
    assert(1 <= close < lines.len());
    let fm = lines.subrange(1, close);
    let idx = fm_ts_idx(fm);
    lemma_fm_ts_idx_props(fm);
    let fm2 = if idx >= 0 {
        fm.subrange(0, idx) + fm.subrange(idx + 1, fm.len() as int)
    } else {
        fm
    };
    let nl = spec_set_ts(lines, ts_text);
    assert(nl =~= seq![lines[0], kvl] + fm2 + lines.skip(close));
    let m = fm2.len() as int;
    // each line of `fm2` is a frontmatter line of the old document
    assert forall|j: int| 0 <= j < m implies line_free(#[trigger] fm2[j]) && !is_delim(fm2[j]) by {
        if idx >= 0 {
            if j < idx {
                assert(fm2[j] == fm.subrange(0, idx)[j]);
                assert(fm2[j] == fm[j]);
                assert(fm[j] == lines.subrange(1, close)[j]);
                assert(fm[j] == lines[j + 1]);
            } else {
                assert(fm2[j] == fm.subrange(idx + 1, fm.len() as int)[j - idx]);
                assert(fm2[j] == fm[j + 1]);
                assert(fm[j + 1] == lines.subrange(1, close)[j + 1]);
                assert(fm[j + 1] == lines[j + 2]);
            }
        } else {
            assert(fm2[j] == fm[j]);
            assert(fm[j] == lines.subrange(1, close)[j]);
            assert(fm[j] == lines[j + 1]);
        }
    }
    assert forall|i: int| 0 <= i < nl.len() implies line_free(#[trigger] nl[i]) by {
        if i >= 2 + m {
            assert(nl[i] == lines[close + (i - 2 - m)]);
        } else if i >= 2 {
            assert(nl[i] == fm2[i - 2]);
        }
    }
    // the frontmatter still opens at line 0 and closes right after `fm2`
    assert(nl[0] == lines[0]);
    assert(nl[2 + m] == lines[close as int]);
    assert forall|k: int| 1 <= k < 2 + m implies !is_delim(#[trigger] nl[k]) by {
        if k >= 2 {
            assert(nl[k] == fm2[k - 2]);
        }
    }
    lemma_find_delim_at(nl, 1, 2 + m);
    assert(has_frontmatter(nl));
    // the new first frontmatter line carries the timestamp
    let fmn = fm_of(nl);
    assert(fmn =~= seq![kvl] + fm2);
    assert(fmn[0] == kvl);
    assert(!fm_skip_line(fmn[0]));
    assert(!is_table_header(fmn[0]));
    lemma_fm_ts_idx_at(fmn, 0);
    assert(fm_ts_raw(fmn) == quoted_inner(quoted(ts_text)));
    assert(fm_ts_raw(fmn) == Some(ts_text));
    // the body is untouched
    assert(body_of(nl) =~= body_of(lines));
}

/// Rewrites a card document's `last_moved_at` to `now`. The headline and the
/// body are untouched; a document without a frontmatter block is rejected.
pub fn set_last_moved(contents: &str, now: i64) -> (r: Result<String, KanbanError>)
    requires
        ts_in_range(now as int),
    ensures
        ({
            let lines = spec_lines(contents@);
            match r {
                Ok(s) => has_frontmatter(lines) && s@ == join_nl(
                    spec_set_ts(lines, rfc3339_of(now as int)),
                ) && has_frontmatter(spec_lines(s@)) && ts_of(spec_lines(s@)) == Some(now as int)
                    && headline_of(spec_lines(s@)) == headline_of(lines),
                Err(e) => e == KanbanError::CardParseError && !has_frontmatter(lines),
            }
        }),
{
    let v = str_chars(contents);
    let lines = split_lines(&v);
    let ghost lv = lines_view(lines@);
    let n = lines.len();
    if n == 0 {
        return Err(KanbanError::CardParseError);
    }
    if !delim_line(&lines[0]) {
        return Err(KanbanError::CardParseError);
    }
    let close = match find_delim(&lines, 1) {
        Some(c) => c,
        None => {
            proof {
                lemma_find_delim_none(lv, 1);
            }
            return Err(KanbanError::CardParseError);
        },
    };
    proof {
        lemma_find_delim_at(lv, 1, close as int);
        assert(has_frontmatter(lv));
    }
    let ts = format_rfc3339(now);
    let kvl = kv_line("last_moved_at", ts.as_str());
    let ghost fm = lv.subrange(1, close as int);
    let ghost pre = seq![lv[0], kvl@];

    let mut out: Vec<Vec<char>> = Vec::new();
    out.push(copy_line(&lines[0]));
    out.push(str_chars(kvl.as_str()));
    proof {
        assert(lines_view(out@) =~= pre);
    }
    let skipped = scan_ts(&lines, 1, close);
    proof {
        assert(lines_view(lines@).subrange(1, close as int) =~= fm);
    }
    match skipped {
        Some(p) => {
            let mut i: usize = 1;
            proof {
                assert(pre + lv.subrange(1, 1) =~= pre);
            }
            while i < p
                invariant
                    1 <= i <= p,
                    p < close <= lines@.len(),
                    lv == lines_view(lines@),
                    pre.len() == 2,
                    lines_view(out@) == pre + lv.subrange(1, i as int),
                decreases p - i,
            {
                let ghost o0 = lines_view(out@);
                out.push(copy_line(&lines[i]));
                i = i + 1;
                proof {
                    assert(lines_view(out@) =~= o0.push(lv[i - 1]));
                    assert(o0.push(lv[i - 1]) =~= pre + lv.subrange(1, i as int));
                }
            }
            let mut i2: usize = p + 1;
            proof {
                assert(pre + lv.subrange(1, p as int) + lv.subrange(p + 1, p + 1) =~= pre
                    + lv.subrange(1, p as int));
            }
            while i2 < close
                invariant
                    p + 1 <= i2 <= close <= lines@.len(),
                    lv == lines_view(lines@),
                    pre.len() == 2,
                    lines_view(out@) == pre + lv.subrange(1, p as int) + lv.subrange(
                        p + 1,
                        i2 as int,
                    ),
                decreases close - i2,
            {
                let ghost o0 = lines_view(out@);
                out.push(copy_line(&lines[i2]));
                i2 = i2 + 1;
                proof {
                    assert(lines_view(out@) =~= o0.push(lv[i2 - 1]));
                    assert(o0.push(lv[i2 - 1]) =~= pre + lv.subrange(1, p as int) + lv.subrange(
                        p + 1,
                        i2 as int,
                    ));
                }
            }
            proof {
                let idx = fm_ts_idx(fm);
                assert(idx == p - 1);
                assert(fm.subrange(0, idx) =~= lv.subrange(1, p as int));
                assert(fm.subrange(idx + 1, fm.len() as int) =~= lv.subrange(
                    p + 1,
                    close as int,
                ));
                assert(lines_view(out@) =~= pre + (fm.subrange(0, idx) + fm.subrange(
                    idx + 1,
                    fm.len() as int,
                )));
            }
        },
        None => {
            let mut i: usize = 1;
            proof {
                assert(pre + lv.subrange(1, 1) =~= pre);
            }
            while i < close
                invariant
                    1 <= i <= close <= lines@.len(),
                    lv == lines_view(lines@),
                    pre.len() == 2,
                    lines_view(out@) == pre + lv.subrange(1, i as int),
                decreases close - i,
            {
                let ghost o0 = lines_view(out@);
                out.push(copy_line(&lines[i]));
                i = i + 1;
                proof {
                    assert(lines_view(out@) =~= o0.push(lv[i - 1]));
                    assert(o0.push(lv[i - 1]) =~= pre + lv.subrange(1, i as int));
                }
            }
            proof {
                assert(fm_ts_idx(fm) == -1);
                assert(lines_view(out@) =~= pre + fm);
            }
        },
    }
    let ghost mid = lines_view(out@);
    let mut t: usize = close;
    proof {
        assert(mid + lv.subrange(close as int, close as int) =~= mid);
    }
    while t < n
        invariant
            close <= t <= n,
            n == lines@.len(),
            lv == lines_view(lines@),
            mid.len() >= 2,
            lines_view(out@) == mid + lv.subrange(close as int, t as int),
        decreases n - t,
    {
        let ghost o0 = lines_view(out@);
        out.push(copy_line(&lines[t]));
        t = t + 1;
        proof {
            assert(lines_view(out@) =~= o0.push(lv[t - 1]));
            assert(o0.push(lv[t - 1]) =~= mid + lv.subrange(close as int, t as int));
        }
    }
    proof {
        assert(lv.subrange(close as int, n as int) =~= lv.skip(close as int));
        assert(lines_view(out@) =~= spec_set_ts(lv, ts@));
    }
    let joined = join_lines(&out);
    let s = chars_to_string(&joined);
    proof {
        crate::text::lemma_lines_acc_line_free(contents@, Seq::empty());
        lemma_set_ts_props(lv, ts@);
        lemma_lines_of_join(spec_set_ts(lv, ts@));
        let nl = spec_lines(s@);
        assert(nl == spec_set_ts(lv, ts@));
        assert(ts_of(nl) == Some(now as int));
        assert(headline_of(nl) == headline_of(lv));
    }
    Ok(s)
}

impl Card {
    /// Rewrites the card file's `last_moved_at` to `now` and relocates the
    /// card into `column`'s directory: the returned text is what the file
    /// must now hold, and the card's path is updated to the new location.
    /// The caller performs the write and the rename.
    pub fn move_to_column(&mut self, column: &Column, contents: &str, now: i64) -> (r: Result<
        String,
        KanbanError,
    >)
        requires
            crate::time::ts_in_range(now as int),
            old(self).file_path@.len() > 0,
            column.path is Some,
        ensures
            ({
                let lines = spec_lines(contents@);
                match r {
                    Ok(s) => has_frontmatter(lines) && s@ == join_nl(
                        spec_set_ts(lines, rfc3339_of(now as int)),
                    ) && ts_of(spec_lines(s@)) == Some(now as int) && headline_of(spec_lines(s@))
                        == headline_of(lines) && final(self).file_path@ == path_join(
                        column@.path.unwrap(),
                        file_name_of(old(self).file_path@),
                    ) && final(self).last_moved_at == Some(now) && final(self).headline == old(
                        self,
                    ).headline,
                    Err(e) => *final(self) == *old(self) && e == KanbanError::CardParseError
                        && !has_frontmatter(lines),
                }
            }),
    {
        let new_content = match set_last_moved(contents, now) {
            Ok(s) => s,
            Err(e) => {
                return Err(e);
            },
        };
        let dir = match &column.path {
            Some(p) => p,
            None => {
                proof {
                    assert(false);
                }
                return Err(KanbanError::NoColumnPath);
            },
        };
        let fname = file_name(self.file_path.as_str());
        let np = join(dir.as_str(), fname.as_str());
        self.file_path = np;
        self.last_moved_at = Some(now);
        Ok(new_content)
    }
}

/// Parses every markdown file of one column listing; a file that fails to
/// parse is skipped rather than aborting the listing.
pub fn load_column_cards(files: &Vec<CardFile>) -> (r: Vec<Card>)
    ensures
        cards_view(r@) == spec_col_cards(files_view(files@)),
{
    let ghost fv = files_view(files@);
    let mut r: Vec<Card> = Vec::new();
    let n = files.len();
    let mut i: usize = 0;
    proof {
        assert(fv.take(0) =~= Seq::<CardFileSpec>::empty());
        assert(cards_view(r@) =~= Seq::<CardSpec>::empty());
    }
    while i < n
        invariant
            i <= n,
            n == files@.len(),
            fv == files_view(files@),
            cards_view(r@) == spec_col_cards(fv.take(i as int)),
        decreases n - i,
    {
        let ghost r0 = cards_view(r@);
        proof {
            assert(fv.take(i as int + 1).drop_last() =~= fv.take(i as int));
            assert(fv.take(i as int + 1).last() == fv[i as int]);
            assert(fv[i as int] == files@[i as int]@);
        }
        let f = &files[i];
        if md_path(f.path.as_str()) {
            match load_card(f.path.as_str(), f.contents.as_str()) {
                Ok(c) => {
                    r.push(c);
                    proof {
                        assert(cards_view(r@) =~= r0.push(c@));
                    }
                },
                Err(_) => {},
            }
        }
        i = i + 1;
    }
    proof {
        assert(fv.take(n as int) =~= fv);
    }
    r
}

} // verus!
