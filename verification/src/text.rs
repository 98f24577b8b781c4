//! Plain-text primitives: character classification, trimming, splitting a
//! document into lines and joining lines back, and prefix tests.
//!
//! Text is modelled as `Seq<char>`; executable code works over `Vec<char>`
//! and `&str`, whose views are that sequence.

use vstd::prelude::*;

verus! {

/// The whitespace characters this library trims.
pub open spec fn is_ws(c: char) -> bool {
    c == ' ' || c == '\t' || c == '\r' || c == '\n'
}

/// `s` without its leading whitespace.
pub open spec fn trim_start(s: Seq<char>) -> Seq<char>
    decreases s.len(),
{
    if s.len() > 0 && is_ws(s.first()) {
        trim_start(s.drop_first())
    } else {
        s
    }
}

/// `s` without its trailing whitespace.
pub open spec fn trim_end(s: Seq<char>) -> Seq<char>
    decreases s.len(),
{
    if s.len() > 0 && is_ws(s.last()) {
        trim_end(s.drop_last())
    } else {
        s
    }
}

/// `s` without leading and trailing whitespace.
pub open spec fn spec_trim(s: Seq<char>) -> Seq<char> {
    trim_end(trim_start(s))
}

/// The views of a sequence of character vectors.
pub open spec fn lines_view(v: Seq<Vec<char>>) -> Seq<Seq<char>> {
    v.map_values(|l: Vec<char>| l@)
}

/// The view of an optional string.
pub open spec fn opt_str_view(o: Option<String>) -> Option<Seq<char>> {
    match o {
        Some(s) => Some(s@),
        None => None,
    }
}

/// The lines of `cur + s`, where `cur` is an unfinished first line:
/// lines are separated by `'\n'`, and a final newline opens no empty line.
pub open spec fn lines_acc(s: Seq<char>, cur: Seq<char>) -> Seq<Seq<char>>
    decreases s.len(),
{
    if s.len() == 0 {
        if cur.len() == 0 {
            Seq::empty()
        } else {
            seq![cur]
        }
    } else if s.first() == '\n' {
        seq![cur] + lines_acc(s.drop_first(), Seq::empty())
    } else {
        lines_acc(s.drop_first(), cur.push(s.first()))
    }
}

/// The lines of a document.
pub open spec fn spec_lines(s: Seq<char>) -> Seq<Seq<char>> {
    lines_acc(s, Seq::empty())
}

/// The lines joined back into one document, each line followed by `'\n'`.
pub open spec fn join_nl(lines: Seq<Seq<char>>) -> Seq<char>
    decreases lines.len(),
{
    if lines.len() == 0 {
        Seq::empty()
    } else {
        lines.first() + seq!['\n'] + join_nl(lines.drop_first())
    }
}

/// The lines joined with `'\n'` between them and none at the end.
pub open spec fn join_sep(lines: Seq<Seq<char>>) -> Seq<char>
    decreases lines.len(),
{
    if lines.len() == 0 {
        Seq::empty()
    } else if lines.len() == 1 {
        lines.first()
    } else {
        lines.first() + seq!['\n'] + join_sep(lines.drop_first())
    }
}

/// Whether `s` holds no newline; such a sequence is a single line.
pub open spec fn line_free(s: Seq<char>) -> bool {
    forall|i: int| 0 <= i < s.len() ==> s[i] != '\n'
}

/// Splitting yields newline-free lines.
pub proof fn lemma_lines_acc_line_free(s: Seq<char>, cur: Seq<char>)
    requires
        line_free(cur),
    ensures
        forall|i: int|
            0 <= i < lines_acc(s, cur).len() ==> line_free(#[trigger] lines_acc(s, cur)[i]),
    decreases s.len(),
{
    if s.len() == 0 {
    } else if s.first() == '\n' {
        lemma_lines_acc_line_free(s.drop_first(), Seq::empty());
        let r = lines_acc(s, cur);
        let rest = lines_acc(s.drop_first(), Seq::empty());
        assert forall|i: int| 0 <= i < r.len() implies line_free(#[trigger] r[i]) by {
            if i == 0 {
                assert(r[i] == cur);
            } else {
                assert(r[i] == rest[i - 1]);
            }
        }
    } else {
        assert forall|k: int| 0 <= k < cur.push(s.first()).len() implies cur.push(s.first())[k]
            != '\n' by {
            if k < cur.len() {
                assert(cur.push(s.first())[k] == cur[k]);
            }
        }
        lemma_lines_acc_line_free(s.drop_first(), cur.push(s.first()));
        let r = lines_acc(s, cur);
        let rest = lines_acc(s.drop_first(), cur.push(s.first()));
        assert forall|i: int| 0 <= i < r.len() implies line_free(#[trigger] r[i]) by {
            assert(r[i] == rest[i]);
        }
    }
}

/// Trimming the end keeps a prefix.
pub proof fn lemma_trim_end_prefix(s: Seq<char>)
    ensures
        trim_end(s).len() <= s.len(),
        trim_end(s) == s.take(trim_end(s).len() as int),
    decreases s.len(),
{
    if s.len() > 0 && is_ws(s.last()) {
        lemma_trim_end_prefix(s.drop_last());
        assert(s.drop_last().take(trim_end(s).len() as int) =~= s.take(trim_end(s).len() as int));
    } else {
        assert(s.take(s.len() as int) =~= s);
    }
}

/// Joining one more line appends that line and a newline.
pub proof fn lemma_join_nl_push(lines: Seq<Seq<char>>, l: Seq<char>)
    ensures
        join_nl(lines.push(l)) == join_nl(lines) + l + seq!['\n'],
    decreases lines.len(),
{
    if lines.len() == 0 {
        assert(lines.push(l).len() == 1);
        assert(lines.push(l).first() == l);
        assert(lines.push(l).drop_first() =~= Seq::<Seq<char>>::empty());
        assert(join_nl(lines.push(l)) == l + seq!['\n'] + join_nl(Seq::<Seq<char>>::empty()));
        assert(join_nl(lines.push(l)) =~= join_nl(lines) + l + seq!['\n']);
    } else {
        assert(lines.push(l).first() == lines.first());
        assert(lines.push(l).drop_first() =~= lines.drop_first().push(l));
        lemma_join_nl_push(lines.drop_first(), l);
        assert(lines.first() + seq!['\n'] + (join_nl(lines.drop_first()) + l + seq!['\n']) =~= (
        lines.first() + seq!['\n'] + join_nl(lines.drop_first())) + l + seq!['\n']);
    }
}

/// Splitting a line, a newline and a remainder continues with the remainder.
pub proof fn lemma_lines_acc_of_line(l: Seq<char>, rest: Seq<char>, cur: Seq<char>)
    requires
        line_free(l),
    ensures
        lines_acc(l + seq!['\n'] + rest, cur) == seq![cur + l] + lines_acc(rest, Seq::empty()),
    decreases l.len(),
{
    let s = l + seq!['\n'] + rest;
    if l.len() == 0 {
        assert(s =~= seq!['\n'] + rest);
        assert(s.first() == '\n');
        assert(s.drop_first() =~= rest);
        assert(cur + l =~= cur);
    } else {
        assert(s.first() == l.first());
        assert(s.drop_first() =~= l.drop_first() + seq!['\n'] + rest);
        lemma_lines_acc_of_line(l.drop_first(), rest, cur.push(l.first()));
        assert(cur.push(l.first()) + l.drop_first() =~= cur + l);
    }
}

/// `spec_lines` undoes `join_nl` on newline-free lines.
pub proof fn lemma_lines_of_join(lines: Seq<Seq<char>>)
    requires
        forall|i: int| 0 <= i < lines.len() ==> line_free(#[trigger] lines[i]),
    ensures
        spec_lines(join_nl(lines)) == lines,
    decreases lines.len(),
{
    if lines.len() == 0 {
        assert(spec_lines(join_nl(lines)) =~= lines);
    } else {
        lemma_lines_acc_of_line(lines.first(), join_nl(lines.drop_first()), Seq::empty());
        lemma_lines_of_join(lines.drop_first());
        assert(Seq::<char>::empty() + lines.first() =~= lines.first());
        assert(seq![lines.first()] + lines.drop_first() =~= lines);
    }
}

/// The characters of `s`, as a vector.
pub fn str_chars(s: &str) -> (r: Vec<char>)
    ensures
        r@ == s@,
{
    let n = s.unicode_len();
    let mut r: Vec<char> = Vec::new();
    let mut i: usize = 0;
    while i < n
        invariant
            n == s@.len(),
            i <= n,
            r@ == s@.take(i as int),
        decreases n - i,
    {
        r.push(s.get_char(i));
        i = i + 1;
        proof {
            assert(r@ =~= s@.take(i as int));
        }
    }
    proof {
        assert(s@.take(n as int) =~= s@);
    }
    r
}

/// Relies on `String: FromIterator<char>` of std: collecting characters
/// yields the string of exactly those characters in order.
#[verifier::external_body]
pub(crate) fn chars_to_string(v: &Vec<char>) -> (r: String)
    ensures
        r@ == v@,
{
    v.iter().collect()
}

/// Whether the characters of `v` are exactly those of `s`.
pub fn vec_eq_str(v: &Vec<char>, s: &str) -> (r: bool)
    ensures
        r == (v@ == s@),
{
    let n = s.unicode_len();
    if v.len() != n {
        return false;
    }
    let mut i: usize = 0;
    while i < n
        invariant
            n == s@.len(),
            v@.len() == n,
            i <= n,
            forall|k: int| 0 <= k < i ==> v@[k] == s@[k],
        decreases n - i,
    {
        if v[i] != s.get_char(i) {
            return false;
        }
        i = i + 1;
    }
    proof {
        assert(v@ =~= s@);
    }
    true
}

/// Whether `p` is a prefix of `s`.
pub fn str_starts_with(s: &str, p: &str) -> (r: bool)
    ensures
        r == p@.is_prefix_of(s@),
{
    let np = p.unicode_len();
    let ns = s.unicode_len();
    if np > ns {
        return false;
    }
    let mut i: usize = 0;
    while i < np
        invariant
            np == p@.len(),
            ns == s@.len(),
            np <= ns,
            i <= np,
            forall|k: int| 0 <= k < i ==> p@[k] == s@[k],
        decreases np - i,
    {
        if p.get_char(i) != s.get_char(i) {
            return false;
        }
        i = i + 1;
    }
    proof {
        assert(p@ =~= s@.take(np as int));
    }
    true
}

/// The position of the first `c` in `v` at or after `from`, if any.
pub fn find_char(v: &Vec<char>, c: char, from: usize) -> (r: Option<usize>)
    requires
        from <= v@.len(),
    ensures
        match r {
            Some(p) => from <= p < v@.len() && v@[p as int] == c && forall|k: int|
                from <= k < p ==> v@[k] != c,
            None => forall|k: int| from <= k < v@.len() ==> v@[k] != c,
        },
{
    let n = v.len();
    let mut i: usize = from;
    while i < n
        invariant
            from <= i <= n,
            n == v@.len(),
            forall|k: int| from <= k < i ==> v@[k] != c,
        decreases n - i,
    {
        if v[i] == c {
            return Some(i);
        }
        i = i + 1;
    }
    None
}

/// The lowercase form of a text, as `str::to_lowercase` computes it.
pub uninterp spec fn lower_of(s: Seq<char>) -> Seq<char>;

/// Relies on `str::to_lowercase`: the result depends on the characters alone,
/// and an empty string stays empty.
#[verifier::external_body]
pub(crate) fn lowercase(s: &str) -> (r: String)
    ensures
        r@ == lower_of(s@),
        s@.len() == 0 ==> r@.len() == 0,
{
    s.to_lowercase()
}

/// Pushes the characters of `l` onto `r`.
pub fn append_chars(r: &mut Vec<char>, l: &Vec<char>)
    ensures
        final(r)@ == old(r)@ + l@,
{
    let m = l.len();
    let mut j: usize = 0;
    while j < m
        invariant
            m == l@.len(),
            j <= m,
            r@ == old(r)@ + l@.take(j as int),
        decreases m - j,
    {
        r.push(l[j]);
        j = j + 1;
        proof {
            assert(old(r)@ + l@.take(j as int) =~= (old(r)@ + l@.take(j - 1)).push(l@[j - 1]));
        }
    }
    proof {
        assert(l@.take(m as int) =~= l@);
        assert(old(r)@ + l@ =~= r@);
    }
}

/// The elements of `v` from `from` (inclusive) to `to` (exclusive).
pub fn vec_subrange(v: &Vec<char>, from: usize, to: usize) -> (r: Vec<char>)
    requires
        from <= to <= v@.len(),
    ensures
        r@ == v@.subrange(from as int, to as int),
{
    let mut r: Vec<char> = Vec::new();
    let mut i: usize = from;
    while i < to
        invariant
            from <= i <= to <= v@.len(),
            r@ == v@.subrange(from as int, i as int),
        decreases to - i,
    {
        r.push(v[i]);
        i = i + 1;
        proof {
            assert(r@ =~= v@.subrange(from as int, i as int));
        }
    }
    r
}

/// Whether `c` is whitespace.
pub fn ws_char(c: char) -> (r: bool)
    ensures
        r == is_ws(c),
{
    c == ' ' || c == '\t' || c == '\r' || c == '\n'
}

/// `trim_start` skips exactly the leading whitespace run.
pub proof fn lemma_trim_start_skip(s: Seq<char>, i: int)
    requires
        0 <= i <= s.len(),
        forall|k: int| 0 <= k < i ==> is_ws(s[k]),
        i < s.len() ==> !is_ws(s[i]),
    ensures
        trim_start(s) == s.skip(i),
    decreases i,
{
    if i == 0 {
        assert(s.skip(0) =~= s);
    } else {
        assert(is_ws(s.first()));
        assert(s.drop_first() =~= s.skip(1));
        lemma_trim_start_skip(s.drop_first(), i - 1);
        assert(s.drop_first().skip(i - 1) =~= s.skip(i));
    }
}

/// `trim_end` keeps exactly the part before the trailing whitespace run.
pub proof fn lemma_trim_end_take(s: Seq<char>, j: int)
    requires
        0 <= j <= s.len(),
        forall|k: int| j <= k < s.len() ==> is_ws(s[k]),
        j > 0 ==> !is_ws(s[j - 1]),
    ensures
        trim_end(s) == s.take(j),
    decreases s.len(),
{
    if j == s.len() {
        if s.len() > 0 && is_ws(s.last()) {
            assert(j > 0 && !is_ws(s[j - 1]));
            assert(false);
        }
        assert(s.take(j) =~= s);
    } else {
        assert(is_ws(s.last()));
        lemma_trim_end_take(s.drop_last(), j);
        assert(s.drop_last().take(j) =~= s.take(j));
    }
}

/// `v` without leading and trailing whitespace.
pub fn trim_vec(v: &Vec<char>) -> (r: Vec<char>)
    ensures
        r@ == spec_trim(v@),
{
    let n = v.len();
    let mut i: usize = 0;
    while i < n && ws_char(v[i])
        invariant
            n == v@.len(),
            i <= n,
            forall|k: int| 0 <= k < i ==> is_ws(v@[k]),
        decreases n - i,
    {
        i = i + 1;
    }
    proof {
        lemma_trim_start_skip(v@, i as int);
    }
    if i == n {
        proof {
            assert(v@.skip(n as int) =~= Seq::<char>::empty());
        }
        return Vec::new();
    }
    let mut j: usize = n;
    while j > i + 1 && ws_char(v[j - 1])
        invariant
            n == v@.len(),
            i < j <= n,
            i < n,
            !is_ws(v@[i as int]),
            forall|k: int| j <= k < n ==> is_ws(v@[k]),
        decreases j,
    {
        j = j - 1;
    }
    if ws_char(v[j - 1]) {
        // only possible when j == i + 1, whose character is not whitespace
        proof {
            assert(j == i + 1);
            assert(false);
        }
    }
    proof {
        let t = v@.skip(i as int);
        assert(forall|k: int| j - i <= k < t.len() ==> is_ws(#[trigger] t[k]));
        assert(!is_ws(t[j - i - 1]));
        lemma_trim_end_take(t, j - i);
        assert(t.take(j - i) =~= v@.subrange(i as int, j as int));
    }
    vec_subrange(v, i, j)
}

/// The lines of `v`, split at `'\n'`.
pub fn split_lines(v: &Vec<char>) -> (r: Vec<Vec<char>>)
    ensures
        lines_view(r@) == spec_lines(v@),
{
    let n = v.len();
    let mut r: Vec<Vec<char>> = Vec::new();
    let mut cur: Vec<char> = Vec::new();
    let mut i: usize = 0;
    proof {
        assert(v@.skip(0) =~= v@);
        assert(lines_view(r@) =~= Seq::<Seq<char>>::empty());
        assert(lines_view(r@) + lines_acc(v@, cur@) =~= lines_acc(v@, cur@));
    }
    while i < n
        invariant
            n == v@.len(),
            i <= n,
            spec_lines(v@) == lines_view(r@) + lines_acc(v@.skip(i as int), cur@),
        decreases n - i,
    {
        let c = v[i];
        proof {
            assert(v@.skip(i as int).first() == v@[i as int]);
            assert(v@.skip(i as int).drop_first() =~= v@.skip(i as int + 1));
        }
        if c == '\n' {
            let ghost r0 = lines_view(r@);
            let ghost cur0 = cur@;
            let done = cur;
            cur = Vec::new();
            r.push(done);
            proof {
                assert(lines_view(r@) =~= r0.push(cur0));
                assert(r0 + (seq![cur0] + lines_acc(v@.skip(i as int + 1), Seq::empty())) =~= r0.push(
                cur0) + lines_acc(v@.skip(i as int + 1), Seq::empty()));
            }
        } else {
            cur.push(c);
        }
        i = i + 1;
    }
    proof {
        assert(v@.skip(n as int) =~= Seq::<char>::empty());
    }
    if cur.len() > 0 {
        let ghost r0 = lines_view(r@);
        let ghost cur0 = cur@;
        r.push(cur);
        proof {
            assert(lines_view(r@) =~= r0.push(cur0));
            assert(r0 + seq![cur0] =~= r0.push(cur0));
        }
    } else {
        proof {
            assert(lines_view(r@) + Seq::<Seq<char>>::empty() =~= lines_view(r@));
        }
    }
    r
}

/// The lines joined into one document, each followed by `'\n'`.
pub fn join_lines(lines: &Vec<Vec<char>>) -> (r: Vec<char>)
    ensures
        r@ == join_nl(lines_view(lines@)),
{
    let ghost lv = lines_view(lines@);
    let mut r: Vec<char> = Vec::new();
    let n = lines.len();
    let mut i: usize = 0;
    while i < n
        invariant
            lv == lines_view(lines@),
            n == lines@.len(),
            i <= n,
            r@ == join_nl(lv.take(i as int)),
        decreases n - i,
    {
        let line = &lines[i];
        let ghost base = r@;
        let mut j: usize = 0;
        let m = line.len();
        while j < m
            invariant
                m == line@.len(),
                j <= m,
                r@ == base + line@.take(j as int),
            decreases m - j,
        {
            r.push(line[j]);
            j = j + 1;
            proof {
                assert(r@ =~= base + line@.take(j as int));
            }
        }
        r.push('\n');
        proof {
            lemma_join_nl_push(lv.take(i as int), line@);
            assert(lv.take(i as int).push(line@) =~= lv.take(i as int + 1));
            assert(line@.take(m as int) =~= line@);
            assert((base + line@).push('\n') =~= join_nl(lv.take(i as int)) + line@ + seq!['\n']);
        }
        i = i + 1;
    }
    proof {
        assert(lv.take(n as int) =~= lv);
    }
    r
}

} // verus!
