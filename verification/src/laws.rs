//! Laws of the board, stated once and proved for every board state.

use vstd::prelude::*;
use crate::board::{found_in, col_found, card_matches, FoundSpec};
use crate::card::{CardSpec, CardFileSpec, spec_col_cards, spec_parse_card, is_md};
use crate::paths::{path_join, file_name_of};

verus! {

/// The cards of one column's hits.
pub open spec fn found_cards(r: Seq<FoundSpec>) -> Seq<CardSpec> {
    r.map_values(|f: FoundSpec| f.card)
}

/// With the empty prefix every headlined card is a hit, in order.
proof fn lemma_col_found_empty(col: Seq<CardSpec>, j: int)
    requires
        forall|k: int| 0 <= k < col.len() ==> (#[trigger] col[k]).headline is Some,
    ensures
        found_cards(col_found(col, j, Seq::empty())) == col,
    decreases col.len(),
{
    if col.len() == 0 {
        assert(found_cards(col_found(col, j, Seq::empty())) =~= col);
    } else {
        assert(forall|k: int|
            0 <= k < col.drop_last().len() ==> (#[trigger] col.drop_last()[k]).headline is Some);
        lemma_col_found_empty(col.drop_last(), j);
        let h = col.last().headline.unwrap();
        assert(col[col.len() - 1].headline is Some);
        assert(Seq::<char>::empty() =~= h.subrange(0, 0));
        assert(Seq::<char>::empty().is_prefix_of(h));
        assert(card_matches(col.last(), Seq::empty()));
        let rest = col_found(col.drop_last(), j, Seq::empty());
        assert(found_cards(rest.push(FoundSpec { card: col.last(), column_position: j }))
            =~= found_cards(rest).push(col.last()));
        assert(col.drop_last().push(col.last()) =~= col);
    }
}

/// Searching with the empty prefix returns every card across all columns
/// exactly once, in column order then card order, provided every card has a
/// headline (a card without one matches no prefix at all).
pub proof fn lemma_empty_prefix_finds_all(g: Seq<Seq<CardSpec>>)
    requires
        forall|j: int, k: int|
            0 <= j < g.len() && 0 <= k < g[j].len() ==> (#[trigger] g[j][k]).headline is Some,
    ensures
        found_cards(found_in(g, Seq::empty())) == g.flatten_alt(),
    decreases g.len(),
{
    if g.len() == 0 {
        assert(found_cards(found_in(g, Seq::empty())) =~= g.flatten_alt());
    } else {
        assert(forall|j: int, k: int|
            0 <= j < g.drop_last().len() && 0 <= k < g.drop_last()[j].len() ==> (#[trigger] g.drop_last()[j][k]).headline is Some);
        lemma_empty_prefix_finds_all(g.drop_last());
        assert(forall|k: int|
            0 <= k < g[g.len() - 1].len() ==> (#[trigger] g[g.len() - 1][k]).headline is Some);
        lemma_col_found_empty(g.last(), g.len() - 1);
        let a = found_in(g.drop_last(), Seq::empty());
        let b = col_found(g.last(), g.len() - 1, Seq::empty());
        assert(found_cards(a + b) =~= found_cards(a) + found_cards(b));
    }
}

// ------------------------------------------------------------------
// A move keeps the board's card count
// ------------------------------------------------------------------

/// The number of cards the whole board's files yield.
pub open spec fn total_cards(fv: Seq<Seq<CardFileSpec>>) -> int
    decreases fv.len(),
{
    if fv.len() == 0 {
        0
    } else {
        total_cards(fv.drop_last()) + spec_col_cards(fv.last()).len()
    }
}

/// Replacing one column changes the total by that column's difference.
proof fn lemma_total_cards_update(fv: Seq<Seq<CardFileSpec>>, j: int, col: Seq<CardFileSpec>)
    requires
        0 <= j < fv.len(),
    ensures
        total_cards(fv.update(j, col)) == total_cards(fv) - spec_col_cards(fv[j]).len()
            + spec_col_cards(col).len(),
    decreases fv.len(),
{
    let up = fv.update(j, col);
    assert(up.len() == fv.len());
    if j == fv.len() - 1 {
        assert(up.drop_last() =~= fv.drop_last());
        assert(up.last() == col);
    } else {
        assert(up.drop_last() =~= fv.drop_last().update(j, col));
        assert(up.last() == fv.last());
        lemma_total_cards_update(fv.drop_last(), j, col);
        assert(fv.drop_last()[j] == fv[j]);
    }
}

/// Appending a file that parses adds exactly one card to a column.
proof fn lemma_col_cards_push(fs: Seq<CardFileSpec>, f: CardFileSpec)
    requires
        is_md(f.path),
        spec_parse_card(f.path, f.contents) is Some,
    ensures
        spec_col_cards(fs.push(f)) == spec_col_cards(fs).push(
            spec_parse_card(f.path, f.contents).unwrap(),
        ),
{
    assert(fs.push(f).drop_last() =~= fs);
    assert(fs.push(f).last() == f);
}

/// Removing a file that parses removes exactly one card from a column.
proof fn lemma_col_cards_remove_len(fs: Seq<CardFileSpec>, k: int)
    requires
        0 <= k < fs.len(),
        is_md(fs[k].path),
        spec_parse_card(fs[k].path, fs[k].contents) is Some,
    ensures
        spec_col_cards(fs.remove(k)).len() == spec_col_cards(fs).len() - 1,
    decreases fs.len(),
{
    if k == fs.len() - 1 {
        assert(fs.remove(k) =~= fs.drop_last());
    } else {
        assert(fs.remove(k).drop_last() =~= fs.drop_last().remove(k));
        assert(fs.remove(k).last() == fs.last());
        assert(fs.drop_last()[k] == fs[k]);
        lemma_col_cards_remove_len(fs.drop_last(), k);
    }
}

/// A moved file keeps its markdown name: joining the file's name onto any
/// directory names a markdown document again.
pub proof fn lemma_moved_file_is_md(dir: Seq<char>, p: Seq<char>)
    requires
        is_md(p),
    ensures
        is_md(path_join(dir, file_name_of(p))),
    decreases p.len(),
{
    reveal_strlit(".md");
    let f = file_name_of(p);
    // the `.md` suffix holds no separator, so the file name keeps it
    lemma_file_name_keeps_suffix(p);
    let q = path_join(dir, f);
    assert(q.len() == dir.len() + 1 + f.len());
    assert(q.skip(q.len() - 3) =~= f.skip(f.len() - 3));
    assert(q.skip(q.len() - 3) == p.skip(p.len() - 3));
}

/// A path ending in `.md` has a file name ending in `.md`.
proof fn lemma_file_name_keeps_suffix(p: Seq<char>)
    requires
        is_md(p),
    ensures
        file_name_of(p).len() >= 3,
        file_name_of(p).skip(file_name_of(p).len() - 3) =~= p.skip(p.len() - 3),
    decreases p.len(),
{
    reveal_strlit(".md");
    assert(p.skip(p.len() - 3)[0] == p[p.len() - 3]);
    assert(p.skip(p.len() - 3)[1] == p[p.len() - 2]);
    assert(p.skip(p.len() - 3)[2] == p[p.len() - 1]);
    assert(p[p.len() - 3] == '.' && p[p.len() - 2] == 'm' && p[p.len() - 1] == 'd');
    assert(p.last() != '/');
    let f = file_name_of(p);
    assert(f == file_name_of(p.drop_last()).push('d'));
    let p1 = p.drop_last();
    assert(p1.last() == 'm' && p1.last() != '/');
    let f1 = file_name_of(p1);
    assert(f1 == file_name_of(p1.drop_last()).push('m'));
    let p2 = p1.drop_last();
    assert(p2.last() == '.' && p2.last() != '/');
    let f2 = file_name_of(p2);
    assert(f2 == file_name_of(p2.drop_last()).push('.'));
    assert(f.len() >= 3);
    assert(f[f.len() - 1] == 'd');
    assert(f[f.len() - 2] == 'm');
    assert(f[f.len() - 3] == '.');
    assert(f.skip(f.len() - 3) =~= p.skip(p.len() - 3));
}

/// Moving a card neither duplicates nor loses any: taking the matched card's
/// file out of its column and adding the restamped file to another leaves
/// the card count across the whole board unchanged.
pub proof fn lemma_move_preserves_card_count(
    fv: Seq<Seq<CardFileSpec>>,
    new_fv: Seq<Seq<CardFileSpec>>,
    from: int,
    fi: int,
    to: int,
    ne: CardFileSpec,
)
    requires
        0 <= from < fv.len(),
        0 <= to < fv.len(),
        from != to,
        0 <= fi < fv[from].len(),
        is_md(fv[from][fi].path),
        spec_parse_card(fv[from][fi].path, fv[from][fi].contents) is Some,
        is_md(ne.path),
        spec_parse_card(ne.path, ne.contents) is Some,
        new_fv == fv.update(from, fv[from].remove(fi)).update(to, fv[to].push(ne)),
    ensures
        total_cards(new_fv) == total_cards(fv),
{
    let mid = fv.update(from, fv[from].remove(fi));
    lemma_col_cards_remove_len(fv[from], fi);
    lemma_total_cards_update(fv, from, fv[from].remove(fi));
    assert(total_cards(mid) == total_cards(fv) - 1);
    lemma_col_cards_push(fv[to], ne);
    assert(mid[to] == fv[to]);
    lemma_total_cards_update(mid, to, fv[to].push(ne));
}

// ------------------------------------------------------------------
// Two matches forbid a move
// ------------------------------------------------------------------

/// The hits of the first `n` columns, counted.
pub open spec fn found_len_up_to(g: Seq<Seq<CardSpec>>, p: Seq<char>, n: int) -> int
    decreases n,
{
    if n <= 0 {
        0
    } else {
        found_len_up_to(g, p, n - 1) + col_found(g[n - 1], n - 1, p).len()
    }
}

/// The search's result is as long as the per-column hit counts together.
proof fn lemma_found_in_len(g: Seq<Seq<CardSpec>>, p: Seq<char>)
    ensures
        found_in(g, p).len() == found_len_up_to(g, p, g.len() as int),
    decreases g.len(),
{
    if g.len() > 0 {
        lemma_found_in_len(g.drop_last(), p);
        assert(found_len_up_to(g.drop_last(), p, g.len() - 1) == found_len_up_to(g, p, g.len() - 1))
            by {
            lemma_found_len_up_to_same(g.drop_last(), g, p, g.len() - 1);
        }
    }
}

/// Counting hits only looks at the first `n` columns.
proof fn lemma_found_len_up_to_same(g1: Seq<Seq<CardSpec>>, g2: Seq<Seq<CardSpec>>, p: Seq<char>, n: int)
    requires
        n <= g1.len(),
        n <= g2.len(),
        forall|j: int| 0 <= j < n ==> g1[j] == g2[j],
    ensures
        found_len_up_to(g1, p, n) == found_len_up_to(g2, p, n),
    decreases n,
{
    if n > 0 {
        lemma_found_len_up_to_same(g1, g2, p, n - 1);
    }
}

/// Counts of hits never shrink as columns are added.
proof fn lemma_found_len_up_to_mono(g: Seq<Seq<CardSpec>>, p: Seq<char>, m: int, n: int)
    requires
        0 <= m <= n,
    ensures
        found_len_up_to(g, p, m) <= found_len_up_to(g, p, n),
    decreases n - m,
{
    if m < n {
        lemma_found_len_up_to_mono(g, p, m, n - 1);
    }
}

/// A column with a matching card has at least one hit.
proof fn lemma_col_found_ge1(col: Seq<CardSpec>, j: int, p: Seq<char>, k: int)
    requires
        0 <= k < col.len(),
        card_matches(col[k], p),
    ensures
        col_found(col, j, p).len() >= 1,
    decreases col.len(),
{
    if k == col.len() - 1 {
    } else {
        assert(col.drop_last()[k] == col[k]);
        lemma_col_found_ge1(col.drop_last(), j, p, k);
    }
}

/// A column with two matching cards has at least two hits.
proof fn lemma_col_found_ge2(col: Seq<CardSpec>, j: int, p: Seq<char>, k1: int, k2: int)
    requires
        0 <= k1 < k2 < col.len(),
        card_matches(col[k1], p),
        card_matches(col[k2], p),
    ensures
        col_found(col, j, p).len() >= 2,
    decreases col.len(),
{
    if k2 == col.len() - 1 {
        assert(col.drop_last()[k1] == col[k1]);
        lemma_col_found_ge1(col.drop_last(), j, p, k1);
    } else {
        assert(col.drop_last()[k1] == col[k1]);
        assert(col.drop_last()[k2] == col[k2]);
        lemma_col_found_ge2(col.drop_last(), j, p, k1, k2);
    }
}

/// When a prefix matches two or more cards, the search returns two or more
/// hits, and a move is refused; only a single match lets one proceed.
pub proof fn lemma_two_matches_refuse_move(
    g: Seq<Seq<CardSpec>>,
    p: Seq<char>,
    j1: int,
    k1: int,
    j2: int,
    k2: int,
)
    requires
        0 <= j1 < g.len(),
        0 <= k1 < g[j1].len(),
        card_matches(g[j1][k1], p),
        0 <= j2 < g.len(),
        0 <= k2 < g[j2].len(),
        card_matches(g[j2][k2], p),
        j1 < j2 || (j1 == j2 && k1 < k2),
    ensures
        found_in(g, p).len() >= 2,
{
    lemma_found_in_len(g, p);
    if j1 == j2 {
        lemma_col_found_ge2(g[j1], j1, p, k1, k2);
        assert(found_len_up_to(g, p, j1 + 1) >= 2) by {
            lemma_found_len_up_to_nonneg(g, p, j1);
        }
        lemma_found_len_up_to_mono(g, p, j1 + 1, g.len() as int);
    } else {
        lemma_col_found_ge1(g[j1], j1, p, k1);
        lemma_col_found_ge1(g[j2], j2, p, k2);
        lemma_found_len_up_to_nonneg(g, p, j1);
        assert(found_len_up_to(g, p, j1 + 1) >= 1);
        lemma_found_len_up_to_mono(g, p, j1 + 1, j2);
        assert(found_len_up_to(g, p, j2 + 1) >= 2);
        lemma_found_len_up_to_mono(g, p, j2 + 1, g.len() as int);
    }
}

/// Hit counts are never negative.
proof fn lemma_found_len_up_to_nonneg(g: Seq<Seq<CardSpec>>, p: Seq<char>, n: int)
    ensures
        found_len_up_to(g, p, n) >= 0,
    decreases n,
{
    if n > 0 {
        lemma_found_len_up_to_nonneg(g, p, n - 1);
    }
}

} // verus!
