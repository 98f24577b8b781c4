//! `key = "value"` lines, the building block of the board configuration and
//! of card frontmatter: what such a line means, how one is written, and how
//! one is read back.

use vstd::prelude::*;
use crate::text::{
    is_ws, spec_trim, trim_start, line_free, lemma_trim_start_skip, lemma_trim_end_take, trim_vec,
    vec_subrange, find_char, ws_char,
};

verus! {

/// The position of the first `c` in `s` at or after `from`, or -1.
pub open spec fn find_ch_from(s: Seq<char>, c: char, from: int) -> int
    decreases s.len() - from,
{
    if from < 0 || from >= s.len() {
        -1
    } else if s[from] == c {
        from
    } else {
        find_ch_from(s, c, from + 1)
    }
}

/// Where `c` occurs at `i` and nowhere earlier, the search finds `i`.
pub proof fn lemma_find_ch_at(s: Seq<char>, c: char, from: int, i: int)
    requires
        0 <= from <= i < s.len(),
        s[i] == c,
        forall|k: int| from <= k < i ==> s[k] != c,
    ensures
        find_ch_from(s, c, from) == i,
    decreases i - from,
{
    if from < i {
        lemma_find_ch_at(s, c, from + 1, i);
    }
}

/// Where `c` occurs nowhere from `from` on, the search fails.
pub proof fn lemma_find_ch_none(s: Seq<char>, c: char, from: int)
    requires
        0 <= from <= s.len(),
        forall|k: int| from <= k < s.len() ==> s[k] != c,
    ensures
        find_ch_from(s, c, from) == -1,
    decreases s.len() - from,
{
    if from < s.len() {
        lemma_find_ch_none(s, c, from + 1);
    }
}

/// The key and raw value text of a `key = value` line: the parts left and
/// right of the first `=`, both trimmed. `None` when there is no `=` or the
/// key is empty.
pub open spec fn kv_of_line(l: Seq<char>) -> Option<(Seq<char>, Seq<char>)> {
    let i = find_ch_from(l, '=', 0);
    if i < 0 {
        None
    } else {
        let k = spec_trim(l.take(i));
        let v = spec_trim(l.skip(i + 1));
        if k.len() > 0 {
            Some((k, v))
        } else {
            None
        }
    }
}

/// The content of a basic quoted string, `None` when `v` is not one.
pub open spec fn quoted_inner(v: Seq<char>) -> Option<Seq<char>> {
    if v.len() >= 2 && v.first() == '"' && v.last() == '"' && (forall|k: int|
        1 <= k < v.len() - 1 ==> v[k] != '"') {
        Some(v.subrange(1, v.len() - 1))
    } else {
        None
    }
}

/// Whether the line opens a table, such as `[events]` or `[[columns]]`.
pub open spec fn is_table_header(l: Seq<char>) -> bool {
    trim_start(l).len() > 0 && trim_start(l).first() == '['
}

/// A character a plain key may hold: no separator, quote, bracket, comment
/// mark, dash or whitespace.
pub open spec fn key_char(c: char) -> bool {
    c != '=' && c != '"' && c != '[' && c != '#' && c != '-' && !is_ws(c)
}

/// A plain key: nonempty, of plain characters.
pub open spec fn plain_key(k: Seq<char>) -> bool {
    k.len() > 0 && forall|i: int| 0 <= i < k.len() ==> key_char(#[trigger] k[i])
}

/// A value a quoted string can carry: no quote, no newline.
pub open spec fn plain_val(v: Seq<char>) -> bool {
    forall|i: int| 0 <= i < v.len() ==> v[i] != '"' && v[i] != '\n'
}

/// `val` in quotes.
pub open spec fn quoted(val: Seq<char>) -> Seq<char> {
    seq!['"'] + val + seq!['"']
}

/// The line `key = "val"`.
pub open spec fn kv_line_text(key: Seq<char>, val: Seq<char>) -> Seq<char> {
    key + " = \""@ + val + seq!['"']
}

/// Reading back a written `key = "val"` line yields the key and the value.
pub proof fn lemma_kv_line_text(key: Seq<char>, val: Seq<char>)
    requires
        plain_key(key),
        plain_val(val),
    ensures
        kv_of_line(kv_line_text(key, val)) == Some((key, quoted(val))),
        quoted_inner(quoted(val)) == Some(val),
        !is_table_header(kv_line_text(key, val)),
        line_free(kv_line_text(key, val)),
        spec_trim(kv_line_text(key, val)) == kv_line_text(key, val),
        kv_line_text(key, val).len() > 0,
        kv_line_text(key, val).first() == key.first(),
{
    reveal_strlit(" = \"");
    let m = " = \""@;
    assert(m.len() == 4);
    assert(m =~= seq![' ', '=', ' ', '"']);
    let l = kv_line_text(key, val);
    let kn = key.len() as int;
    assert(l.len() == kn + 4 + val.len() + 1);
    assert(l[kn + 1] == '=');
    assert(forall|k: int| 0 <= k < kn ==> l[k] == key[k] && l[k] != '=');
    assert(l[kn] == ' ');
    lemma_find_ch_at(l, '=', 0, kn + 1);
    // the key side: `key ` trims to `key`
    let kp = l.take(kn + 1);
    assert(kp =~= key + seq![' ']);
    assert(!is_ws(kp.first()));
    assert(trim_start(kp) == kp);
    lemma_trim_end_take(kp, kn);
    assert(kp.take(kn) =~= key);
    // the value side: ` "val"` trims to `"val"`
    let q = quoted(val);
    let vp = l.skip(kn + 2);
    assert(vp =~= seq![' '] + q);
    assert(vp.first() == ' ');
    assert(vp.drop_first() =~= q);
    assert(q.first() == '"');
    assert(trim_start(q) == q);
    assert(trim_start(vp) == q);
    assert(q.last() == '"');
    assert(crate::text::trim_end(q) == q);
    assert(forall|k: int| 1 <= k < q.len() - 1 ==> q[k] == val[k - 1] && q[k] != '"');
    assert(q.subrange(1, q.len() - 1) =~= val);
    // the whole line is already trimmed
    assert(l.first() == key.first());
    assert(!is_ws(l.first()));
    assert(l.last() == '"');
    assert(trim_start(l) == l);
    assert(crate::text::trim_end(l) == l);
}

/// The line `key = "val"`.
pub fn kv_line(key: &str, val: &str) -> (r: String)
    ensures
        r@ == kv_line_text(key@, val@),
{
    let mut r = String::from_str(key);
    r.append(" = \"");
    r.append(val);
    r.append("\"");
    proof {
        reveal_strlit("\"");
        assert("\""@ =~= seq!['"']);
        assert(r@ =~= kv_line_text(key@, val@));
    }
    r
}

/// The key and raw value text of `l`, when it is a `key = value` line.
pub fn kv_extract(l: &Vec<char>) -> (r: Option<(Vec<char>, Vec<char>)>)
    ensures
        match r {
            Some(p) => kv_of_line(l@) == Some((p.0@, p.1@)),
            None => kv_of_line(l@) is None,
        },
{
    match find_char(l, '=', 0) {
        Some(i) => {
            proof {
                lemma_find_ch_at(l@, '=', 0, i as int);
            }
            let kpart = vec_subrange(l, 0, i);
            let k = trim_vec(&kpart);
            let n = l.len();
            proof {
                assert(i < n);
            }
            let vpart = vec_subrange(l, i + 1, n);
            let v = trim_vec(&vpart);
            proof {
                assert(l@.subrange(0, i as int) =~= l@.take(i as int));
                assert(l@.subrange(i as int + 1, l@.len() as int) =~= l@.skip(i as int + 1));
            }
            if k.len() == 0 {
                None
            } else {
                Some((k, v))
            }
        },
        None => {
            proof {
                lemma_find_ch_none(l@, '=', 0);
            }
            None
        },
    }
}

/// The content of `v`, when it is a basic quoted string.
pub fn quoted_extract(v: &Vec<char>) -> (r: Option<Vec<char>>)
    ensures
        match r {
            Some(inner) => quoted_inner(v@) == Some(inner@),
            None => quoted_inner(v@) is None,
        },
{
    let n = v.len();
    if n < 2 {
        return None;
    }
    if v[0] != '"' || v[n - 1] != '"' {
        return None;
    }
    match find_char(v, '"', 1) {
        Some(p) => {
            if p == n - 1 {
                Some(vec_subrange(v, 1, n - 1))
            } else {
                None
            }
        },
        None => {
            proof {
                assert(v@[n - 1] == '"');
                assert(false);
            }
            None
        },
    }
}

/// Whether `l` opens a table.
pub fn table_header(l: &Vec<char>) -> (r: bool)
    ensures
        r == is_table_header(l@),
{
    let n = l.len();
    let mut i: usize = 0;
    while i < n && ws_char(l[i])
        invariant
            i <= n,
            n == l@.len(),
            forall|k: int| 0 <= k < i ==> is_ws(l@[k]),
        decreases n - i,
    {
        i = i + 1;
    }
    proof {
        lemma_trim_start_skip(l@, i as int);
    }
    if i == n {
        false
    } else {
        l[i] == '['
    }
}

} // verus!
