//! The board configuration: an array of `[[columns]]` tables, each holding
//! `key = value` lines. `name` and `dir_name` are required strings; `limit`
//! and `display` are counts; `sort_by` and `sort_order` are strings;
//! `show_headlines_in_summary` is a boolean. Unknown keys and unknown tables
//! are ignored; a line that is none of blank, comment, header or key-value,
//! or a known key with an ill-typed value, is a parse error.

use vstd::prelude::*;
use crate::KanbanError;
use crate::kv::{kv_of_line, quoted_inner, is_table_header, kv_extract, quoted_extract, table_header};
use crate::text::{
    spec_trim, trim_start, is_ws, spec_lines, lines_view, opt_str_view, str_chars, chars_to_string,
    split_lines, trim_vec, vec_eq_str, ws_char, lemma_trim_start_skip,
};

verus! {

// ------------------------------------------------------------------
// Values
// ------------------------------------------------------------------

/// Whether `c` is a decimal digit.
pub open spec fn is_digit(c: char) -> bool {
    c == '0' || c == '1' || c == '2' || c == '3' || c == '4' || c == '5' || c == '6' || c == '7'
        || c == '8' || c == '9'
}

/// The value of a decimal digit.
pub open spec fn digit_val(c: char) -> int {
    if c == '0' {
        0
    } else if c == '1' {
        1
    } else if c == '2' {
        2
    } else if c == '3' {
        3
    } else if c == '4' {
        4
    } else if c == '5' {
        5
    } else if c == '6' {
        6
    } else if c == '7' {
        7
    } else if c == '8' {
        8
    } else {
        9
    }
}

/// The value of a digit string, most significant first.
pub open spec fn digits_val(s: Seq<char>) -> int
    decreases s.len(),
{
    if s.len() == 0 {
        0
    } else {
        digits_val(s.drop_last()) * 10 + digit_val(s.last())
    }
}

/// Whether `s` is one or more digits.
pub open spec fn all_digits(s: Seq<char>) -> bool {
    s.len() > 0 && forall|i: int| 0 <= i < s.len() ==> is_digit(#[trigger] s[i])
}

/// A digit string's value is nonnegative.
pub proof fn lemma_digits_val_nonneg(s: Seq<char>)
    ensures
        digits_val(s) >= 0 || exists|i: int| 0 <= i < s.len() && !is_digit(#[trigger] s[i]),
    decreases s.len(),
{
    if s.len() > 0 {
        lemma_digits_val_nonneg(s.drop_last());
        if digits_val(s.drop_last()) >= 0 {
            if is_digit(s.last()) {
                assert(digit_val(s.last()) >= 0);
            } else {
                assert(!is_digit(s[s.len() - 1]));
            }
        } else {
            let i = choose|i: int|
                0 <= i < s.drop_last().len() && !is_digit(#[trigger] s.drop_last()[i]);
            assert(!is_digit(s[i]));
        }
    }
}

/// A prefix of a digit string is worth no more than the whole.
pub proof fn lemma_digits_prefix_le(s: Seq<char>, k: int)
    requires
        all_digits(s),
        0 <= k <= s.len(),
    ensures
        digits_val(s.take(k)) <= digits_val(s),
    decreases s.len() - k,
{
    if k == s.len() {
        assert(s.take(k) =~= s);
    } else {
        let t = s.take(k + 1);
        assert(t.drop_last() =~= s.take(k));
        assert(t.last() == s[k]);
        lemma_digits_val_nonneg(s.take(k));
        assert(forall|i: int| 0 <= i < s.take(k).len() ==> is_digit(#[trigger] s.take(k)[i]));
        assert(digits_val(s.take(k)) >= 0);
        assert(digits_val(t) == digits_val(s.take(k)) * 10 + digit_val(s[k]));
        assert(digits_val(s.take(k)) * 10 >= digits_val(s.take(k)));
        lemma_digits_prefix_le(s, k + 1);
    }
}

/// The count a value denotes: all digits, fitting a `u32`.
pub open spec fn int_value(v: Seq<char>) -> Option<u32> {
    if all_digits(v) && digits_val(v) <= u32::MAX as int {
        Some(digits_val(v) as u32)
    } else {
        None
    }
}

/// The boolean a value denotes.
pub open spec fn bool_value(v: Seq<char>) -> Option<bool> {
    if v == "true"@ {
        Some(true)
    } else if v == "false"@ {
        Some(false)
    } else {
        None
    }
}

/// Whether `c` is a decimal digit, and its value.
fn digit_of(c: char) -> (r: Option<u8>)
    ensures
        match r {
            Some(d) => is_digit(c) && d as int == digit_val(c),
            None => !is_digit(c),
        },
{
    match c {
        '0' => Some(0),
        '1' => Some(1),
        '2' => Some(2),
        '3' => Some(3),
        '4' => Some(4),
        '5' => Some(5),
        '6' => Some(6),
        '7' => Some(7),
        '8' => Some(8),
        '9' => Some(9),
        _ => None,
    }
}

/// The count `v` denotes, if it is all digits and fits.
pub fn parse_u32(v: &Vec<char>) -> (r: Option<u32>)
    ensures
        r == int_value(v@),
{
    let n = v.len();
    if n == 0 {
        return None;
    }
    let mut acc: u64 = 0;
    let mut i: usize = 0;
    proof {
        assert(v@.take(0) =~= Seq::<char>::empty());
    }
    while i < n
        invariant
            i <= n,
            n == v@.len(),
            n > 0,
            acc as int == digits_val(v@.take(i as int)),
            acc <= u32::MAX as u64,
            forall|k: int| 0 <= k < i ==> is_digit(#[trigger] v@[k]),
        decreases n - i,
    {
        let d = match digit_of(v[i]) {
            Some(d) => d,
            None => {
                return None;
            },
        };
        let next: u64 = acc * 10 + (d as u64);
        proof {
            assert(v@.take(i as int + 1).drop_last() =~= v@.take(i as int));
            assert(v@.take(i as int + 1).last() == v@[i as int]);
            assert(next as int == digits_val(v@.take(i as int + 1)));
        }
        if next > 0xffff_ffff {
            proof {
                if all_digits(v@) {
                    lemma_digits_prefix_le(v@, i as int + 1);
                }
            }
            return None;
        }
        acc = next;
        i = i + 1;
    }
    proof {
        assert(v@.take(n as int) =~= v@);
        assert(all_digits(v@));
    }
    Some(acc as u32)
}

/// The boolean `v` denotes, if any.
pub fn parse_bool(v: &Vec<char>) -> (r: Option<bool>)
    ensures
        r == bool_value(v@),
{
    if vec_eq_str(v, "true") {
        Some(true)
    } else if vec_eq_str(v, "false") {
        Some(false)
    } else {
        None
    }
}

// ------------------------------------------------------------------
// Columns under construction
// ------------------------------------------------------------------

/// The mathematical value of a column table under construction.
pub struct RawColumnSpec {
    pub name: Option<Seq<char>>,
    pub dir_name: Option<Seq<char>>,
    pub limit: Option<u32>,
    pub display: Option<u32>,
    pub sort_by: Option<Seq<char>>,
    pub sort_order: Option<Seq<char>>,
    pub show_headlines_in_summary: Option<bool>,
}

/// One `[[columns]]` table as read so far.
pub struct RawColumn {
    pub name: Option<String>,
    pub dir_name: Option<String>,
    pub limit: Option<u32>,
    pub display: Option<u32>,
    pub sort_by: Option<String>,
    pub sort_order: Option<String>,
    pub show_headlines_in_summary: Option<bool>,
}

impl View for RawColumn {
    type V = RawColumnSpec;

    open spec fn view(&self) -> RawColumnSpec {
        RawColumnSpec {
            name: opt_str_view(self.name),
            dir_name: opt_str_view(self.dir_name),
            limit: self.limit,
            display: self.display,
            sort_by: opt_str_view(self.sort_by),
            sort_order: opt_str_view(self.sort_order),
            show_headlines_in_summary: self.show_headlines_in_summary,
        }
    }
}

/// The views of a sequence of raw columns.
pub open spec fn raws_view(v: Seq<RawColumn>) -> Seq<RawColumnSpec> {
    v.map_values(|c: RawColumn| c@)
}

/// A column table with no key seen yet.
pub open spec fn raw_empty() -> RawColumnSpec {
    RawColumnSpec {
        name: None,
        dir_name: None,
        limit: None,
        display: None,
        sort_by: None,
        sort_order: None,
        show_headlines_in_summary: None,
    }
}

/// The column `c` after the line `k = v`: a known key must carry a value of
/// its type, an unknown key changes nothing.
pub open spec fn apply_kv(c: RawColumnSpec, k: Seq<char>, v: Seq<char>) -> Option<RawColumnSpec> {
    if k == "name"@ {
        match quoted_inner(v) {
            Some(s) => Some(RawColumnSpec { name: Some(s), ..c }),
            None => None,
        }
    } else if k == "dir_name"@ {
        match quoted_inner(v) {
            Some(s) => Some(RawColumnSpec { dir_name: Some(s), ..c }),
            None => None,
        }
    } else if k == "limit"@ {
        match int_value(v) {
            Some(x) => Some(RawColumnSpec { limit: Some(x), ..c }),
            None => None,
        }
    } else if k == "display"@ {
        match int_value(v) {
            Some(x) => Some(RawColumnSpec { display: Some(x), ..c }),
            None => None,
        }
    } else if k == "sort_by"@ {
        match quoted_inner(v) {
            Some(s) => Some(RawColumnSpec { sort_by: Some(s), ..c }),
            None => None,
        }
    } else if k == "sort_order"@ {
        match quoted_inner(v) {
            Some(s) => Some(RawColumnSpec { sort_order: Some(s), ..c }),
            None => None,
        }
    } else if k == "show_headlines_in_summary"@ {
        match bool_value(v) {
            Some(b) => Some(RawColumnSpec { show_headlines_in_summary: Some(b), ..c }),
            None => None,
        }
    } else {
        Some(c)
    }
}

// ------------------------------------------------------------------
// The parse, one line at a time
// ------------------------------------------------------------------

/// The parser's state: the finished columns, the column being read, and
/// whether keys are inside an unknown table and so ignored.
pub struct CfgStateSpec {
    pub done: Seq<RawColumnSpec>,
    pub cur: Option<RawColumnSpec>,
    pub ignoring: bool,
}

/// Whether a line is blank.
pub open spec fn is_blank(l: Seq<char>) -> bool {
    spec_trim(l).len() == 0
}

/// Whether a line is a comment.
pub open spec fn is_comment(l: Seq<char>) -> bool {
    trim_start(l).len() > 0 && trim_start(l).first() == '#'
}

/// Whether a line opens one more column table.
pub open spec fn is_columns_header(l: Seq<char>) -> bool {
    spec_trim(l) == "[[columns]]"@
}

/// The finished columns once the current table closes: a column must have
/// its `name` and `dir_name`.
pub open spec fn close_cur(st: CfgStateSpec) -> Option<Seq<RawColumnSpec>> {
    match st.cur {
        None => Some(st.done),
        Some(c) => if c.name is Some && c.dir_name is Some {
            Some(st.done.push(c))
        } else {
            None
        },
    }
}

/// The parser's state after one line.
pub open spec fn cfg_step(st: CfgStateSpec, l: Seq<char>) -> Option<CfgStateSpec> {
    if is_blank(l) || is_comment(l) {
        Some(st)
    } else if is_columns_header(l) {
        match close_cur(st) {
            Some(done) => Some(CfgStateSpec { done, cur: Some(raw_empty()), ignoring: false }),
            None => None,
        }
    } else if is_table_header(l) {
        Some(CfgStateSpec { ignoring: true, ..st })
    } else {
        match kv_of_line(l) {
            Some(kv) => {
                if st.ignoring {
                    Some(st)
                } else {
                    match st.cur {
                        None => Some(st),
                        Some(c) => match apply_kv(c, kv.0, kv.1) {
                            Some(c2) => Some(CfgStateSpec { cur: Some(c2), ..st }),
                            None => None,
                        },
                    }
                }
            },
            None => None,
        }
    }
}

/// The parser's state after a sequence of lines.
pub open spec fn cfg_fold(lines: Seq<Seq<char>>, st: CfgStateSpec) -> Option<CfgStateSpec>
    decreases lines.len(),
{
    if lines.len() == 0 {
        Some(st)
    } else {
        match cfg_step(st, lines.first()) {
            Some(st2) => cfg_fold(lines.drop_first(), st2),
            None => None,
        }
    }
}

/// The view of an optional raw column.
pub open spec fn opt_raw_view(o: Option<RawColumn>) -> Option<RawColumnSpec> {
    match o {
        Some(c) => Some(c@),
        None => None,
    }
}

/// The parser's starting state.
pub open spec fn cfg_init() -> CfgStateSpec {
    CfgStateSpec { done: Seq::empty(), cur: None, ignoring: false }
}

/// What parsing a configuration text yields: the declared columns in order,
/// or nothing when some line is malformed or a column lacks `name` or
/// `dir_name`.
pub open spec fn spec_parse_config(text: Seq<char>) -> Option<Seq<RawColumnSpec>> {
    match cfg_fold(spec_lines(text), cfg_init()) {
        Some(st) => close_cur(st),
        None => None,
    }
}

/// Whether a column table carries the required keys.
pub open spec fn col_complete(c: RawColumnSpec) -> bool {
    c.name is Some && c.dir_name is Some
}

/// A fold from a state of complete columns keeps them complete.
proof fn lemma_fold_complete(lines: Seq<Seq<char>>, st: CfgStateSpec)
    requires
        forall|i: int| 0 <= i < st.done.len() ==> col_complete(#[trigger] st.done[i]),
    ensures
        match cfg_fold(lines, st) {
            Some(st2) => forall|i: int| 0 <= i < st2.done.len() ==> col_complete(
                #[trigger] st2.done[i],
            ),
            None => true,
        },
    decreases lines.len(),
{
    if lines.len() > 0 {
        match cfg_step(st, lines.first()) {
            Some(st2) => {
                assert forall|i: int| 0 <= i < st2.done.len() implies col_complete(
                    #[trigger] st2.done[i],
                ) by {
                    if st2.done != st.done {
                        assert(is_columns_header(lines.first()));
                        assert(st2.done == close_cur(st).unwrap());
                        if i < st.done.len() {
                            assert(st2.done[i] == st.done[i]);
                        }
                    }
                }
                lemma_fold_complete(lines.drop_first(), st2);
            },
            None => {},
        }
    }
}

/// Every column a successful parse yields has its `name` and `dir_name`.
pub proof fn lemma_parse_config_complete(text: Seq<char>)
    ensures
        match spec_parse_config(text) {
            Some(cols) => forall|i: int| 0 <= i < cols.len() ==> col_complete(#[trigger] cols[i]),
            None => true,
        },
{
    lemma_fold_complete(spec_lines(text), cfg_init());
    match cfg_fold(spec_lines(text), cfg_init()) {
        Some(st) => {
            match close_cur(st) {
                Some(cols) => {
                    assert forall|i: int| 0 <= i < cols.len() implies col_complete(
                        #[trigger] cols[i],
                    ) by {
                        if i < st.done.len() {
                            assert(cols[i] == st.done[i]);
                        }
                    }
                },
                None => {},
            }
        },
        None => {},
    }
}

/// Whether a line is blank.
fn blank_line(l: &Vec<char>) -> (r: bool)
    ensures
        r == is_blank(l@),
{
    let t = trim_vec(l);
    t.len() == 0
}

/// Whether a line is a comment.
fn comment_line(l: &Vec<char>) -> (r: bool)
    ensures
        r == is_comment(l@),
{
    let n = l.len();
    let mut i: usize = 0;
    while i < n && ws_char(l[i])
        invariant
            i <= n,
            n == l@.len(),
            forall|k: int| 0 <= k < i ==> is_ws(l@[k]),
        decreases n - i,
    {
        i = i + 1;
    }
    proof {
        lemma_trim_start_skip(l@, i as int);
    }
    if i == n {
        false
    } else {
        l[i] == '#'
    }
}

/// Whether a line opens one more column table.
fn columns_header_line(l: &Vec<char>) -> (r: bool)
    ensures
        r == is_columns_header(l@),
{
    let t = trim_vec(l);
    vec_eq_str(&t, "[[columns]]")
}

/// Parses a board configuration text into its declared columns.
pub fn parse_config(text: &str) -> (r: Result<Vec<RawColumn>, KanbanError>)
    ensures
        match r {
            Ok(cols) => spec_parse_config(text@) == Some(raws_view(cols@)),
            Err(e) => spec_parse_config(text@) is None && e == KanbanError::ConfigParseError,
        },
{
    let v = str_chars(text);
    let lines = split_lines(&v);
    let ghost lv = lines_view(lines@);
    proof {
        assert(v@ == text@);
        assert(lv == spec_lines(text@));
    }
    let n = lines.len();
    let mut done: Vec<RawColumn> = Vec::new();
    let mut cur: Option<RawColumn> = None;
    let mut ignoring: bool = false;
    let ghost init = cfg_init();
    let mut i: usize = 0;
    proof {
        assert(lv.skip(0) =~= lv);
        assert(raws_view(done@) =~= Seq::<RawColumnSpec>::empty());
    }
    while i < n
        invariant
            i <= n,
            n == lines@.len(),
            lv == lines_view(lines@),
            lv == spec_lines(text@),
            cfg_fold(lv, cfg_init()) == cfg_fold(
                lv.skip(i as int),
                CfgStateSpec { done: raws_view(done@), cur: opt_raw_view(cur), ignoring: ignoring },
            ),
        decreases n - i,
    {
        let ghost st = CfgStateSpec { done: raws_view(done@), cur: opt_raw_view(cur), ignoring: ignoring };
        proof {
            assert(lv.skip(i as int).first() == lv[i as int]);
            assert(lv.skip(i as int).drop_first() =~= lv.skip(i as int + 1));
        }
        let l = &lines[i];
        if blank_line(l) || comment_line(l) {
            // nothing changes
        } else if columns_header_line(l) {
            match cur {
                None => {},
                Some(c) => {
                    if c.name.is_some() && c.dir_name.is_some() {
                        let ghost d0 = raws_view(done@);
                        let ghost cv = c@;
                        done.push(c);
                        proof {
                            assert(raws_view(done@) =~= d0.push(cv));
                        }
                    } else {
                        proof {
                            assert(cfg_step(st, lv[i as int]) is None);
                            assert(cfg_fold(lv.skip(i as int), st) is None);
                            assert(cfg_fold(lv, cfg_init()) is None);
                            assert(spec_parse_config(text@) is None);
                        }
                        return Err(KanbanError::ConfigParseError);
                    }
                },
            }
            cur = Some(
                RawColumn {
                    name: None,
                    dir_name: None,
                    limit: None,
                    display: None,
                    sort_by: None,
                    sort_order: None,
                    show_headlines_in_summary: None,
                },
            );
            ignoring = false;
        } else if table_header(l) {
            ignoring = true;
        } else {
            match kv_extract(l) {
                Some((k, val)) => {
                    if !ignoring {
                        match &mut cur {
                            None => {},
                            Some(c) => {
                                if vec_eq_str(&k, "name") {
                                    match quoted_extract(&val) {
                                        Some(s) => {
                                            c.name = Some(chars_to_string(&s));
                                        },
                                        None => {
                                            return Err(KanbanError::ConfigParseError);
                                        },
                                    }
                                } else if vec_eq_str(&k, "dir_name") {
                                    match quoted_extract(&val) {
                                        Some(s) => {
                                            c.dir_name = Some(chars_to_string(&s));
                                        },
                                        None => {
                                            return Err(KanbanError::ConfigParseError);
                                        },
                                    }
                                } else if vec_eq_str(&k, "limit") {
                                    match parse_u32(&val) {
                                        Some(x) => {
                                            c.limit = Some(x);
                                        },
                                        None => {
                                            return Err(KanbanError::ConfigParseError);
                                        },
                                    }
                                } else if vec_eq_str(&k, "display") {
                                    match parse_u32(&val) {
                                        Some(x) => {
                                            c.display = Some(x);
                                        },
                                        None => {
                                            return Err(KanbanError::ConfigParseError);
                                        },
                                    }
                                } else if vec_eq_str(&k, "sort_by") {
                                    match quoted_extract(&val) {
                                        Some(s) => {
                                            c.sort_by = Some(chars_to_string(&s));
                                        },
                                        None => {
                                            return Err(KanbanError::ConfigParseError);
                                        },
                                    }
                                } else if vec_eq_str(&k, "sort_order") {
                                    match quoted_extract(&val) {
                                        Some(s) => {
                                            c.sort_order = Some(chars_to_string(&s));
                                        },
                                        None => {
                                            return Err(KanbanError::ConfigParseError);
                                        },
                                    }
                                } else if vec_eq_str(&k, "show_headlines_in_summary") {
                                    match parse_bool(&val) {
                                        Some(b) => {
                                            c.show_headlines_in_summary = Some(b);
                                        },
                                        None => {
                                            return Err(KanbanError::ConfigParseError);
                                        },
                                    }
                                } else {
                                    // an unknown key is ignored
                                }
                            },
                        }
                    }
                },
                None => {
                    proof {
                        assert(cfg_step(st, lv[i as int]) is None);
                        assert(cfg_fold(lv.skip(i as int), st) is None);
                        assert(cfg_fold(lv, cfg_init()) is None);
                        assert(spec_parse_config(text@) is None);
                    }
                    return Err(KanbanError::ConfigParseError);
                },
            }
        }
        i = i + 1;
        proof {
            let st2 = CfgStateSpec { done: raws_view(done@), cur: opt_raw_view(cur), ignoring: ignoring };
            assert(cfg_step(st, lv[i - 1]) == Some(st2));
        }
    }
    proof {
        assert(lv.skip(n as int) =~= Seq::<Seq<char>>::empty());
    }
    match cur {
        None => Ok(done),
        Some(c) => {
            if c.name.is_some() && c.dir_name.is_some() {
                let ghost d0 = raws_view(done@);
                let ghost cv = c@;
                done.push(c);
                proof {
                    assert(raws_view(done@) =~= d0.push(cv));
                }
                Ok(done)
            } else {
                Err(KanbanError::ConfigParseError)
            }
        },
    }
}

} // verus!
