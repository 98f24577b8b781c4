//! Paths as plain strings: components separated by `'/'`, no trailing
//! separator. The filesystem itself is the caller's business; the library
//! only computes with path texts.

use vstd::prelude::*;
use crate::text::{str_chars, vec_subrange, find_char, chars_to_string};

verus! {

/// `a` and `b` joined by one separator.
pub open spec fn path_join(a: Seq<char>, b: Seq<char>) -> Seq<char> {
    a + seq!['/'] + b
}

/// The part of `s` after its last separator (all of `s` when it has none).
pub open spec fn file_name_of(s: Seq<char>) -> Seq<char>
    decreases s.len(),
{
    if s.len() == 0 || s.last() == '/' {
        Seq::empty()
    } else {
        file_name_of(s.drop_last()).push(s.last())
    }
}

/// The part of `s` before its last separator (empty when it has none).
pub open spec fn parent_of(s: Seq<char>) -> Seq<char>
    decreases s.len(),
{
    if s.len() == 0 {
        s
    } else if s.last() == '/' {
        s.drop_last()
    } else {
        parent_of(s.drop_last())
    }
}

/// The part of `s` before its first separator (all of `s` when it has none).
pub open spec fn first_component(s: Seq<char>) -> Seq<char>
    decreases s.len(),
{
    if s.len() == 0 || s.first() == '/' {
        Seq::empty()
    } else {
        seq![s.first()] + first_component(s.drop_first())
    }
}

/// A file name free of separators survives a join.
pub proof fn lemma_join_parts(a: Seq<char>, b: Seq<char>)
    requires
        forall|i: int| 0 <= i < b.len() ==> b[i] != '/',
    ensures
        file_name_of(path_join(a, b)) == b,
        parent_of(path_join(a, b)) == a,
    decreases b.len(),
{
    let j = path_join(a, b);
    if b.len() == 0 {
        assert(j =~= a + seq!['/']);
        assert(j.last() == '/');
        assert(j.drop_last() =~= a);
    } else {
        assert(j.last() == b.last());
        assert(j.drop_last() =~= path_join(a, b.drop_last()));
        lemma_join_parts(a, b.drop_last());
        assert(b.drop_last().push(b.last()) =~= b);
    }
}

/// The suffix after the last separator is the file name.
proof fn lemma_file_name_suffix(s: Seq<char>, i: int)
    requires
        0 <= i <= s.len(),
        forall|k: int| i <= k < s.len() ==> s[k] != '/',
        i > 0 ==> s[i - 1] == '/',
    ensures
        file_name_of(s) == s.skip(i),
        parent_of(s) == if i == 0 { Seq::<char>::empty() } else { s.take(i - 1) },
    decreases s.len(),
{
    if s.len() == i {
        if i == 0 {
            assert(s.skip(0) =~= s);
        } else {
            assert(s.last() == '/');
            assert(s.skip(i) =~= Seq::<char>::empty());
            assert(s.drop_last() =~= s.take(i - 1));
        }
    } else {
        assert(s.last() != '/');
        lemma_file_name_suffix(s.drop_last(), i);
        assert(s.drop_last().skip(i).push(s.last()) =~= s.skip(i));
        if i > 0 {
            assert(s.drop_last().take(i - 1) =~= s.take(i - 1));
        }
    }
}

/// `a` and `b` joined by one separator.
pub fn join(a: &str, b: &str) -> (r: String)
    ensures
        r@ == path_join(a@, b@),
{
    let mut r = String::from_str(a);
    r.append("/");
    r.append(b);
    proof {
        reveal_strlit("/");
        assert("/"@ =~= seq!['/']);
    }
    r
}

/// The position after the last separator of `v` (0 when it has none).
fn after_last_slash(v: &Vec<char>) -> (i: usize)
    ensures
        0 <= i <= v@.len(),
        forall|k: int| i <= k < v@.len() ==> v@[k] != '/',
        i > 0 ==> v@[i - 1] == '/',
{
    let n = v.len();
    let mut j: usize = n;
    while j > 0
        invariant
            j <= n,
            n == v@.len(),
            forall|k: int| j <= k < n ==> v@[k] != '/',
        decreases j,
    {
        if v[j - 1] == '/' {
            return j;
        }
        j = j - 1;
    }
    0
}

/// The part of `path` after its last separator.
pub fn file_name(path: &str) -> (r: String)
    ensures
        r@ == file_name_of(path@),
{
    let v = str_chars(path);
    let i = after_last_slash(&v);
    proof {
        lemma_file_name_suffix(v@, i as int);
        assert(v@.subrange(i as int, v@.len() as int) =~= v@.skip(i as int));
    }
    let tail = vec_subrange(&v, i, v.len());
    chars_to_string(&tail)
}

/// The part of `path` before its last separator, or `None` when it has none.
pub fn parent(path: &str) -> (r: Option<String>)
    ensures
        match r {
            Some(p) => p@ == parent_of(path@) && (exists|k: int|
                0 <= k < path@.len() && path@[k] == '/'),
            None => parent_of(path@) == Seq::<char>::empty() && forall|k: int|
                0 <= k < path@.len() ==> path@[k] != '/',
        },
{
    let v = str_chars(path);
    let i = after_last_slash(&v);
    proof {
        lemma_file_name_suffix(v@, i as int);
    }
    if i == 0 {
        return None;
    }
    proof {
        assert(v@.subrange(0, i - 1) =~= v@.take(i - 1));
        assert(path@[i - 1] == '/');
    }
    let head = vec_subrange(&v, 0, i - 1);
    Some(chars_to_string(&head))
}

} // verus!
