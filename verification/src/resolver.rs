use vstd::multiset::Multiset;
use vstd::prelude::*;
use vstd::seq_lib::group_to_multiset_ensures;

use crate::style::compose_style;
use crate::style::Style;
use crate::style::StyleRange;
use crate::style::TermionStyles;

verus! {

/// A span that actually covers at least one character.
pub open spec fn range_nonempty(r: StyleRange) -> bool {
    r.start < r.end
}

/// Every span of the sequence is nonempty.
pub open spec fn all_nonempty(s: Seq<StyleRange>) -> bool {
    forall|i: int| 0 <= i < s.len() ==> range_nonempty(#[trigger] s[i])
}

/// Order on spans: by start, ties broken by end.
pub open spec fn range_leq(a: StyleRange, b: StyleRange) -> bool {
    a.start < b.start || (a.start == b.start && a.end <= b.end)
}

/// The sequence is sorted under [`range_leq`].
pub open spec fn sorted_ranges(s: Seq<StyleRange>) -> bool {
    forall|i: int, j: int| 0 <= i < j < s.len() ==> range_leq(#[trigger] s[i], #[trigger] s[j])
}

/// Adjacent spans neither overlap nor stand out of order.
pub open spec fn chained_disjoint(s: Seq<StyleRange>) -> bool {
    forall|i: int| 0 <= i < s.len() - 1 ==> (#[trigger] s[i]).end <= s[i + 1].start
}

/// The character offset `p` falls inside the span.
pub open spec fn in_range(r: StyleRange, p: int) -> bool {
    r.start <= p < r.end
}

/// Some span of the sequence covers the offset `p`.
pub open spec fn covers(s: Seq<StyleRange>, p: int) -> bool {
    exists|i: int| 0 <= i < s.len() && in_range(#[trigger] s[i], p)
}

/// Both sequences cover exactly the same offsets.
pub open spec fn same_coverage(a: Seq<StyleRange>, b: Seq<StyleRange>) -> bool {
    forall|p: int| covers(a, p) <==> covers(b, p)
}

/// The summed width of all spans.
pub open spec fn sum_lens(s: Seq<StyleRange>) -> int
    decreases s.len(),
{
    if s.len() == 0 {
        0
    } else {
        sum_lens(s.drop_last()) + (s.last().end - s.last().start)
    }
}

/// How many spans of the sequence cover the offset `p`.
pub open spec fn cover_count(s: Seq<StyleRange>, p: int) -> nat
    decreases s.len(),
{
    if s.len() == 0 {
        0nat
    } else {
        cover_count(s.drop_last(), p) + (if in_range(s.last(), p) {
            1nat
        } else {
            0nat
        })
    }
}

proof fn lemma_cover_count_concat(x: Seq<StyleRange>, y: Seq<StyleRange>, p: int)
    ensures
        cover_count(x + y, p) == cover_count(x, p) + cover_count(y, p),
    decreases y.len(),
{
    if y.len() == 0 {
        assert(x + y =~= x);
    } else {
        assert((x + y).drop_last() =~= x + y.drop_last());
        assert((x + y).last() == y.last());
        lemma_cover_count_concat(x, y.drop_last(), p);
    }
}

proof fn lemma_cover_count_single(r: StyleRange, p: int)
    ensures
        cover_count(seq![r], p) == (if in_range(r, p) {
            1nat
        } else {
            0nat
        }),
{
    assert(seq![r].drop_last() =~= Seq::<StyleRange>::empty());
    assert(cover_count(Seq::<StyleRange>::empty(), p) == 0);
    assert(seq![r].last() == r);
}

proof fn lemma_cover_count_pair(x: StyleRange, y: StyleRange, p: int)
    ensures
        cover_count(seq![x, y], p) == (if in_range(x, p) {
            1nat
        } else {
            0nat
        }) + (if in_range(y, p) {
            1nat
        } else {
            0nat
        }),
{
    assert(seq![x, y].drop_last() =~= seq![x]);
    lemma_cover_count_single(x, p);
}

proof fn lemma_cover_count_triple(x: StyleRange, y: StyleRange, z: StyleRange, p: int)
    ensures
        cover_count(seq![x, y, z], p) == (if in_range(x, p) {
            1nat
        } else {
            0nat
        }) + (if in_range(y, p) {
            1nat
        } else {
            0nat
        }) + (if in_range(z, p) {
            1nat
        } else {
            0nat
        }),
{
    assert(seq![x, y, z].drop_last() =~= seq![x, y]);
    lemma_cover_count_pair(x, y, p);
}

/// A sequence with a member covering `p` covers `p` at least once, and at
/// least twice with two distinct members covering it.
proof fn lemma_cover_count_members(s: Seq<StyleRange>, p: int, i: int, j: int)
    requires
        0 <= i < s.len(),
        0 <= j < s.len(),
        in_range(s[i], p),
        i == j || in_range(s[j], p),
    ensures
        cover_count(s, p) >= 1,
        i != j ==> cover_count(s, p) >= 2,
{
    if i == j {
        assert(s =~= (s.take(i) + seq![s[i]]) + s.skip(i + 1));
        lemma_cover_count_concat(s.take(i), seq![s[i]], p);
        lemma_cover_count_concat(s.take(i) + seq![s[i]], s.skip(i + 1), p);
        lemma_cover_count_single(s[i], p);
    } else {
        let a = if i < j {
            i
        } else {
            j
        };
        let b = if i < j {
            j
        } else {
            i
        };
        assert(s =~= (((s.take(a) + seq![s[a]]) + s.subrange(a + 1, b)) + seq![s[b]]) + s.skip(
            b + 1,
        ));
        lemma_cover_count_concat(s.take(a), seq![s[a]], p);
        lemma_cover_count_concat(s.take(a) + seq![s[a]], s.subrange(a + 1, b), p);
        lemma_cover_count_concat(
            (s.take(a) + seq![s[a]]) + s.subrange(a + 1, b),
            seq![s[b]],
            p,
        );
        lemma_cover_count_concat(
            ((s.take(a) + seq![s[a]]) + s.subrange(a + 1, b)) + seq![s[b]],
            s.skip(b + 1),
            p,
        );
        lemma_cover_count_single(s[a], p);
        lemma_cover_count_single(s[b], p);
    }
}

/// Two sequences holding the same spans cover every offset equally often.
proof fn lemma_cover_count_multiset(a: Seq<StyleRange>, b: Seq<StyleRange>, p: int)
    requires
        a.to_multiset() == b.to_multiset(),
    ensures
        cover_count(a, p) == cover_count(b, p),
    decreases a.len(),
{
    broadcast use group_to_multiset_ensures;

    if a.len() == 0 {
        assert(b.to_multiset().len() == 0);
        assert(b.len() == 0);
    } else {
        let last = a.last();
        assert(a.contains(last));
        assert(a.to_multiset().count(last) > 0);
        assert(b.to_multiset().count(last) > 0);
        assert(b.contains(last));
        let j = choose|j: int| 0 <= j < b.len() && b[j] == last;
        assert(b =~= (b.take(j) + seq![last]) + b.skip(j + 1));
        lemma_cover_count_concat(b.take(j), seq![last], p);
        lemma_cover_count_concat(b.take(j) + seq![last], b.skip(j + 1), p);
        lemma_cover_count_concat(b.take(j), b.skip(j + 1), p);
        lemma_cover_count_single(last, p);
        assert(b.remove(j) =~= b.take(j) + b.skip(j + 1));
        assert(a.drop_last() =~= a.remove(a.len() - 1));
        assert(a.remove(a.len() - 1).to_multiset() == a.to_multiset().remove(last));
        assert(b.remove(j).to_multiset() == b.to_multiset().remove(last));
        lemma_cover_count_multiset(a.drop_last(), b.remove(j), p);
    }
}

/// A sequence covers an offset exactly when it covers it a positive number
/// of times.
proof fn lemma_cover_count_pos(s: Seq<StyleRange>, p: int)
    ensures
        (cover_count(s, p) > 0) <==> covers(s, p),
    decreases s.len(),
{
    if s.len() > 0 {
        lemma_cover_count_pos(s.drop_last(), p);
        if in_range(s.last(), p) {
            assert(in_range(s[s.len() - 1], p));
            assert(covers(s, p));
        }
        if covers(s, p) && !in_range(s.last(), p) {
            let i = choose|i: int| 0 <= i < s.len() && in_range(s[i], p);
            assert(i < s.len() - 1);
            assert(in_range(s.drop_last()[i], p));
            assert(covers(s.drop_last(), p));
        }
        if covers(s.drop_last(), p) {
            let i = choose|i: int| 0 <= i < s.drop_last().len() && in_range(s.drop_last()[i], p);
            assert(in_range(s[i], p));
        }
    }
}

/// The sequence with its zero-width spans left out, in order.
pub open spec fn nonempty_spans(s: Seq<StyleRange>) -> Seq<StyleRange>
    decreases s.len(),
{
    if s.len() == 0 {
        Seq::empty()
    } else if range_nonempty(s.last()) {
        nonempty_spans(s.drop_last()).push(s.last())
    } else {
        nonempty_spans(s.drop_last())
    }
}

/// Drops the zero-width spans: they cover no offset and paint nothing.
fn discard_empty(v: &mut Vec<StyleRange>)
    requires
        sorted_ranges(old(v)@),
    ensures
        final(v)@ == nonempty_spans(old(v)@),
        all_nonempty(final(v)@),
        sorted_ranges(final(v)@),
        forall|p: int| #[trigger] cover_count(final(v)@, p) == cover_count(old(v)@, p),
        forall|j: int|
            0 <= j < old(v)@.len() && range_nonempty(#[trigger] old(v)@[j]) ==> exists|k: int|
                0 <= k < final(v)@.len() && #[trigger] final(v)@[k] == old(v)@[j],
{
    let mut out: Vec<StyleRange> = Vec::new();
    let mut i: usize = 0;

    proof {
        assert(out@ =~= nonempty_spans(old(v)@.take(0)));
    }

    while i < v.len()
        invariant
            i <= v.len(),
            sorted_ranges(v@),
            v@ == old(v)@,
            out@ == nonempty_spans(v@.take(i as int)),
            all_nonempty(out@),
            sorted_ranges(out@),
            forall|k: int, j: int|
                0 <= k < out@.len() && i <= j < v@.len() ==> range_leq(
                    #[trigger] out@[k],
                    #[trigger] v@[j],
                ),
            forall|p: int| #[trigger] cover_count(out@, p) == cover_count(v@.take(i as int), p),
            forall|j: int|
                0 <= j < i && range_nonempty(#[trigger] v@[j]) ==> exists|k: int|
                    0 <= k < out@.len() && #[trigger] out@[k] == v@[j],
        decreases v.len() - i,
    {
        let ghost out_before = out@;
        let r = v[i];
        if r.start < r.end {
            out.push(r);
        }
        i = i + 1;
        proof {
            assert(v@.take(i as int).drop_last() =~= v@.take(i as int - 1));
            assert(v@.take(i as int).last() == r);
            assert(out@ == nonempty_spans(v@.take(i as int)));
            assert forall|p: int| #[trigger] cover_count(out@, p) == cover_count(
                v@.take(i as int),
                p,
            ) by {
                assert(cover_count(out_before, p) == cover_count(v@.take(i as int - 1), p));
                if r.start < r.end {
                    assert(out@.drop_last() =~= out_before);
                    assert(out@.last() == r);
                } else {
                    assert(!in_range(r, p));
                }
            }
            if r.start < r.end {
                assert forall|j: int|
                    0 <= j < i && range_nonempty(#[trigger] v@[j]) implies exists|k: int|
                    0 <= k < out@.len() && #[trigger] out@[k] == v@[j] by {
                    if j + 1 < i {
                        let k = choose|k: int|
                            0 <= k < out_before.len() && #[trigger] out_before[k] == v@[j];
                        assert(out@[k] == v@[j]);
                    } else {
                        assert(out@[out@.len() - 1] == v@[j]);
                    }
                }
            }
        }
    }

    proof {
        assert(v@.take(i as int) =~= v@);
    }
    *v = out;
}

/// When the offset `p` lies in exactly one span of `orig`, namely `orig[i]`,
/// some span of `s` covers `p` with `orig[i]`'s style.
pub open spec fn keeps_unique_styles(s: Seq<StyleRange>, orig: Seq<StyleRange>) -> bool {
    forall|i: int, p: int|
        0 <= i < orig.len() && #[trigger] in_range(orig[i], p) && cover_count(orig, p) == 1
            ==> exists|k: int|
            0 <= k < s.len() && #[trigger] in_range(s[k], p) && s[k].style == orig[i].style
}

/// Offsets covered at most as often as in `orig`.
pub open spec fn covers_no_more(s: Seq<StyleRange>, orig: Seq<StyleRange>) -> bool {
    forall|p: int| #[trigger] cover_count(s, p) <= cover_count(orig, p)
}

proof fn lemma_unique_styles_multiset(a: Seq<StyleRange>, b: Seq<StyleRange>, orig: Seq<StyleRange>)
    requires
        a.to_multiset() == b.to_multiset(),
        keeps_unique_styles(a, orig),
        covers_no_more(a, orig),
    ensures
        keeps_unique_styles(b, orig),
        covers_no_more(b, orig),
{
    broadcast use group_to_multiset_ensures;

    assert forall|i: int, p: int|
        0 <= i < orig.len() && #[trigger] in_range(orig[i], p) && cover_count(orig, p)
            == 1 implies exists|k: int|
        0 <= k < b.len() && #[trigger] in_range(b[k], p) && b[k].style == orig[i].style by {
        let k = choose|k: int|
            0 <= k < a.len() && #[trigger] in_range(a[k], p) && a[k].style == orig[i].style;
        assert(a.contains(a[k]));
        assert(a.to_multiset().count(a[k]) > 0);
        assert(b.to_multiset().count(a[k]) > 0);
        assert(b.contains(a[k]));
        let j = choose|j: int| 0 <= j < b.len() && b[j] == a[k];
        assert(in_range(b[j], p));
    }
    assert forall|p: int| #[trigger] cover_count(b, p) <= cover_count(orig, p) by {
        lemma_cover_count_multiset(a, b, p);
    }
}

/// `keeps_unique_styles` and `covers_no_more` compose along a chain of
/// rewrites.
proof fn lemma_unique_styles_trans(
    v2: Seq<StyleRange>,
    v1: Seq<StyleRange>,
    orig: Seq<StyleRange>,
)
    requires
        keeps_unique_styles(v1, orig),
        covers_no_more(v1, orig),
        keeps_unique_styles(v2, v1),
        covers_no_more(v2, v1),
    ensures
        keeps_unique_styles(v2, orig),
        covers_no_more(v2, orig),
{
    assert forall|i: int, p: int|
        0 <= i < orig.len() && #[trigger] in_range(orig[i], p) && cover_count(orig, p)
            == 1 implies exists|k: int|
        0 <= k < v2.len() && #[trigger] in_range(v2[k], p) && v2[k].style == orig[i].style by {
        let k1 = choose|k: int|
            0 <= k < v1.len() && #[trigger] in_range(v1[k], p) && v1[k].style == orig[i].style;
        lemma_cover_count_members(v1, p, k1, k1);
        assert(cover_count(v1, p) == 1);
        let k2 = choose|k: int|
            0 <= k < v2.len() && #[trigger] in_range(v2[k], p) && v2[k].style == v1[k1].style;
        assert(in_range(v2[k2], p));
    }
    assert forall|p: int| #[trigger] cover_count(v2, p) <= cover_count(orig, p) by {
        assert(cover_count(v1, p) <= cover_count(orig, p));
    }
}

/// The two relations only look at which spans the reference holds, not at
/// their order.
proof fn lemma_unique_styles_reference_multiset(
    s: Seq<StyleRange>,
    a: Seq<StyleRange>,
    b: Seq<StyleRange>,
)
    requires
        a.to_multiset() == b.to_multiset(),
        keeps_unique_styles(s, a),
        covers_no_more(s, a),
    ensures
        keeps_unique_styles(s, b),
        covers_no_more(s, b),
{
    broadcast use group_to_multiset_ensures;

    assert forall|p: int| #[trigger] cover_count(s, p) <= cover_count(b, p) by {
        lemma_cover_count_multiset(a, b, p);
        assert(cover_count(s, p) <= cover_count(a, p));
    }
    assert forall|i: int, p: int|
        0 <= i < b.len() && #[trigger] in_range(b[i], p) && cover_count(b, p) == 1 implies exists|
        k: int,
    |
        0 <= k < s.len() && #[trigger] in_range(s[k], p) && s[k].style == b[i].style by {
        lemma_cover_count_multiset(a, b, p);
        assert(b.contains(b[i]));
        assert(b.to_multiset().count(b[i]) > 0);
        assert(a.to_multiset().count(b[i]) > 0);
        assert(a.contains(b[i]));
        let j = choose|j: int| 0 <= j < a.len() && a[j] == b[i];
        assert(in_range(a[j], p));
        let k = choose|k: int|
            0 <= k < s.len() && #[trigger] in_range(s[k], p) && s[k].style == a[j].style;
        assert(in_range(s[k], p));
    }
}

proof fn lemma_sum_lens_nonneg(s: Seq<StyleRange>)
    requires
        all_nonempty(s),
    ensures
        sum_lens(s) >= 0,
    decreases s.len(),
{
    if s.len() > 0 {
        assert(all_nonempty(s.drop_last()));
        lemma_sum_lens_nonneg(s.drop_last());
    }
}

proof fn lemma_sum_lens_concat(x: Seq<StyleRange>, y: Seq<StyleRange>)
    ensures
        sum_lens(x + y) == sum_lens(x) + sum_lens(y),
    decreases y.len(),
{
    if y.len() == 0 {
        assert(x + y =~= x);
    } else {
        assert((x + y).drop_last() =~= x + y.drop_last());
        assert((x + y).last() == y.last());
        lemma_sum_lens_concat(x, y.drop_last());
    }
}

proof fn lemma_covers_concat(x: Seq<StyleRange>, y: Seq<StyleRange>)
    ensures
        forall|p: int| covers(x + y, p) <==> covers(x, p) || covers(y, p),
{
    assert forall|p: int| covers(x + y, p) <==> covers(x, p) || covers(y, p) by {
        if covers(x + y, p) {
            let i = choose|i: int| 0 <= i < (x + y).len() && in_range((x + y)[i], p);
            if i < x.len() {
                assert(in_range(x[i], p));
            } else {
                assert(in_range(y[i - x.len()], p));
            }
        }
        if covers(x, p) {
            let i = choose|i: int| 0 <= i < x.len() && in_range(x[i], p);
            assert(in_range((x + y)[i], p));
        }
        if covers(y, p) {
            let i = choose|i: int| 0 <= i < y.len() && in_range(y[i], p);
            assert(in_range((x + y)[x.len() + i], p));
        }
    }
}

/// Two sequences holding the same spans (as a multiset) cover the same
/// offsets and agree on having only nonempty spans.
proof fn lemma_multiset_coverage(a: Seq<StyleRange>, b: Seq<StyleRange>)
    requires
        a.to_multiset() == b.to_multiset(),
    ensures
        same_coverage(a, b),
        all_nonempty(a) ==> all_nonempty(b),
{
    broadcast use group_to_multiset_ensures;

    assert forall|p: int| covers(a, p) implies covers(b, p) by {
        let i = choose|i: int| 0 <= i < a.len() && in_range(a[i], p);
        assert(a.contains(a[i]));
        assert(a.to_multiset().count(a[i]) > 0);
        assert(b.to_multiset().count(a[i]) > 0);
        assert(b.contains(a[i]));
        let j = choose|j: int| 0 <= j < b.len() && b[j] == a[i];
        assert(in_range(b[j], p));
    }
    assert forall|p: int| covers(b, p) implies covers(a, p) by {
        let j = choose|j: int| 0 <= j < b.len() && in_range(b[j], p);
        assert(b.contains(b[j]));
        assert(b.to_multiset().count(b[j]) > 0);
        assert(a.to_multiset().count(b[j]) > 0);
        assert(a.contains(b[j]));
        let i = choose|i: int| 0 <= i < a.len() && a[i] == b[j];
        assert(in_range(a[i], p));
    }
    if all_nonempty(a) {
        assert forall|j: int| 0 <= j < b.len() implies range_nonempty(b[j]) by {
            assert(b.contains(b[j]));
            assert(b.to_multiset().count(b[j]) > 0);
            assert(a.to_multiset().count(b[j]) > 0);
            assert(a.contains(b[j]));
            let i = choose|i: int| 0 <= i < a.len() && a[i] == b[j];
            assert(range_nonempty(a[i]));
        }
    }
}

/// In a chain of disjoint nonempty spans, every earlier span ends before any
/// later span starts.
proof fn lemma_chain_orders(s: Seq<StyleRange>, i: int, j: int)
    requires
        chained_disjoint(s),
        all_nonempty(s),
        0 <= i < j < s.len(),
    ensures
        s[i].end <= s[j].start,
    decreases j - i,
{
    if i + 1 < j {
        lemma_chain_orders(s, i + 1, j);
    }
}

proof fn lemma_covers_single(s: Seq<StyleRange>)
    requires
        s.len() == 1,
    ensures
        forall|p: int| covers(s, p) <==> in_range(s[0], p),
{
    assert forall|p: int| covers(s, p) <==> in_range(s[0], p) by {
        if covers(s, p) {
            let i = choose|i: int| 0 <= i < s.len() && in_range(s[i], p);
            assert(i == 0);
        }
        if in_range(s[0], p) {
            assert(covers(s, p));
        }
    }
}

proof fn lemma_covers_pair(s: Seq<StyleRange>)
    requires
        s.len() == 2,
    ensures
        forall|p: int| covers(s, p) <==> in_range(s[0], p) || in_range(s[1], p),
{
    assert forall|p: int| covers(s, p) <==> in_range(s[0], p) || in_range(s[1], p) by {
        if covers(s, p) {
            let i = choose|i: int| 0 <= i < s.len() && in_range(s[i], p);
            assert(i == 0 || i == 1);
        }
        if in_range(s[0], p) {
            assert(covers(s, p));
        }
        if in_range(s[1], p) {
            assert(covers(s, p));
        }
    }
}

proof fn lemma_covers_triple(s: Seq<StyleRange>)
    requires
        s.len() == 3,
    ensures
        forall|p: int|
            covers(s, p) <==> in_range(s[0], p) || in_range(s[1], p) || in_range(s[2], p),
{
    assert forall|p: int|
        covers(s, p) <==> in_range(s[0], p) || in_range(s[1], p) || in_range(s[2], p) by {
        if covers(s, p) {
            let i = choose|i: int| 0 <= i < s.len() && in_range(s[i], p);
            assert(i == 0 || i == 1 || i == 2);
        }
        if in_range(s[0], p) {
            assert(covers(s, p));
        }
        if in_range(s[1], p) {
            assert(covers(s, p));
        }
        if in_range(s[2], p) {
            assert(covers(s, p));
        }
    }
}

proof fn lemma_sum_single(x: StyleRange)
    ensures
        sum_lens(seq![x]) == x.end - x.start,
{
    assert(seq![x].drop_last() =~= Seq::<StyleRange>::empty());
    assert(sum_lens(Seq::<StyleRange>::empty()) == 0);
}

proof fn lemma_sum_pair(x: StyleRange, y: StyleRange)
    ensures
        sum_lens(seq![x, y]) == (x.end - x.start) + (y.end - y.start),
{
    assert(seq![x, y].drop_last() =~= seq![x]);
    lemma_sum_single(x);
}

proof fn lemma_sum_triple(x: StyleRange, y: StyleRange, z: StyleRange)
    ensures
        sum_lens(seq![x, y, z]) == (x.end - x.start) + (y.end - y.start) + (z.end - z.start),
{
    assert(seq![x, y, z].drop_last() =~= seq![x, y]);
    lemma_sum_pair(x, y);
}

/// Adjacent spans at `i`, `i + 1` overlap.
pub open spec fn has_overlap_at(s: Seq<StyleRange>, i: int) -> bool {
    0 <= i && i + 1 < s.len() && s[i].end > s[i + 1].start
}

/// `i` is the first position whose adjacent spans overlap.
pub open spec fn spec_first_overlap_at(s: Seq<StyleRange>, i: int) -> bool {
    has_overlap_at(s, i) && forall|j: int| 0 <= j < i ==> !(#[trigger] has_overlap_at(s, j))
}

/// What one overlapping adjacent pair `a`, `b` (with `a` not after `b` in
/// the span order) resolves to.  Two spans sharing a start compose over the
/// shorter span, the later one keeping its remainder; a fully contained
/// span back-fills its unset channels from its container, which keeps its
/// own prefix and suffix; a partial overlap keeps the earlier span's own
/// prefix, composes the shared middle, and keeps the later span's
/// remainder.
pub open spec fn spec_resolved_pair(a: StyleRange, b: StyleRange) -> Seq<StyleRange> {
    if a.start == b.start {
        let merged = StyleRange {
            start: a.start,
            end: a.end,
            style: crate::style::spec_compose(a.style, b.style),
        };
        if b.end > a.end {
            seq![merged, StyleRange { start: a.end, end: b.end, style: b.style }]
        } else {
            seq![merged]
        }
    } else if a.end > b.end {
        seq![
            StyleRange { start: a.start, end: b.start, style: a.style },
            StyleRange {
                start: b.start,
                end: b.end,
                style: Style {
                    foreground: if b.style.foreground is Some {
                        b.style.foreground
                    } else {
                        a.style.foreground
                    },
                    background: if b.style.background is Some {
                        b.style.background
                    } else {
                        a.style.background
                    },
                    italic: b.style.italic,
                },
            },
            StyleRange { start: b.end, end: a.end, style: a.style },
        ]
    } else {
        let prefix = StyleRange { start: a.start, end: b.start, style: a.style };
        let middle = StyleRange {
            start: b.start,
            end: a.end,
            style: crate::style::spec_compose(a.style, b.style),
        };
        if b.end > a.end {
            seq![prefix, middle, StyleRange { start: a.end, end: b.end, style: b.style }]
        } else {
            seq![prefix, middle]
        }
    }
}

/// The sequence after resolving the overlapping adjacent pair at `idx`.
pub open spec fn spec_resolve_at(s: Seq<StyleRange>, idx: int) -> Seq<StyleRange> {
    s.take(idx) + spec_resolved_pair(s[idx], s[idx + 1]) + s.skip(idx + 2)
}

/// One resolution step: the first overlapping adjacent pair is resolved and
/// the spans stand sorted again.
pub open spec fn spec_resolve_step(s: Seq<StyleRange>, t: Seq<StyleRange>) -> bool {
    exists|idx: int|
        #[trigger] spec_first_overlap_at(s, idx) && t.to_multiset() == spec_resolve_at(
            s,
            idx,
        ).to_multiset() && sorted_ranges(t)
}

/// `b` is reached from `a` by `n` resolution steps.
pub open spec fn resolves_to_n(a: Seq<StyleRange>, b: Seq<StyleRange>, n: nat) -> bool
    decreases n,
{
    if n == 0 {
        a == b
    } else {
        exists|c: Seq<StyleRange>|
            #[trigger] spec_resolve_step(a, c) && resolves_to_n(c, b, (n - 1) as nat)
    }
}

/// A chain of resolution steps grows by one more step at its end.
proof fn lemma_resolves_to_extend(
    a: Seq<StyleRange>,
    b: Seq<StyleRange>,
    b2: Seq<StyleRange>,
    n: nat,
)
    requires
        resolves_to_n(a, b, n),
        spec_resolve_step(b, b2),
    ensures
        resolves_to_n(a, b2, (n + 1) as nat),
    decreases n,
{
    if n == 0 {
        assert(spec_resolve_step(a, b2));
        assert(resolves_to_n(b2, b2, 0nat));
    } else {
        let c = choose|c: Seq<StyleRange>|
            #[trigger] spec_resolve_step(a, c) && resolves_to_n(c, b, (n - 1) as nat);
        lemma_resolves_to_extend(c, b, b2, (n - 1) as nat);
        assert(spec_resolve_step(a, c) && resolves_to_n(c, b2, n));
    }
}

/// A sequence without overlapping adjacent spans takes no further
/// resolution step: every chain from it ends where it stands.
proof fn lemma_resolves_stuck(c: Seq<StyleRange>, out: Seq<StyleRange>, m: nat)
    requires
        forall|i: int| !(#[trigger] has_overlap_at(c, i)),
        resolves_to_n(c, out, m),
    ensures
        out == c,
{
    if m != 0 {
        let c2 = choose|c2: Seq<StyleRange>|
            #[trigger] spec_resolve_step(c, c2) && resolves_to_n(c2, out, (m - 1) as nat);
        let idx = choose|idx: int|
            #[trigger] spec_first_overlap_at(c, idx) && c2.to_multiset() == spec_resolve_at(
                c,
                idx,
            ).to_multiset() && sorted_ranges(c2);
        assert(has_overlap_at(c, idx));
        assert(false);
    }
}

/// Style composition determinism: two spans over the same offsets resolve
/// to the single composed span.  The later span's explicit channels win and
/// its unset channels fall back to the earlier span, so in particular an
/// earlier background-only span and a later foreground-only span both keep
/// their channels: none is lost.
pub proof fn lemma_equal_span_overlap_composes(
    a: StyleRange,
    b: StyleRange,
    out: Seq<StyleRange>,
    n: nat,
)
    requires
        a.start == b.start,
        a.end == b.end,
        a.start < a.end,
        resolves_to_n(nonempty_spans(seq![a, b]), out, n),
        chained_disjoint(out),
    ensures
        out == seq![
            StyleRange {
                start: a.start,
                end: a.end,
                style: crate::style::spec_compose(a.style, b.style),
            },
        ],
        a.style.background is Some && a.style.foreground is None && b.style.foreground is Some
            && b.style.background is None ==> out[0].style.background == a.style.background
            && out[0].style.foreground == b.style.foreground,
{
    broadcast use group_to_multiset_ensures;

    let both = seq![a, b];
    let merged = StyleRange {
        start: a.start,
        end: a.end,
        style: crate::style::spec_compose(a.style, b.style),
    };
    assert(nonempty_spans(Seq::<StyleRange>::empty()) =~= Seq::<StyleRange>::empty());
    assert(seq![a].drop_last() =~= Seq::<StyleRange>::empty());
    assert(range_nonempty(seq![a].last()));
    assert(nonempty_spans(seq![a]) =~= seq![a]);
    assert(both.drop_last() =~= seq![a]);
    assert(range_nonempty(both.last()));
    assert(nonempty_spans(both) =~= both);
    if n == 0 {
        assert(out == both);
        assert(has_overlap_at(out, 0));
        assert(out[0].end <= out[1].start);
        assert(false);
    } else {
        let c = choose|c: Seq<StyleRange>|
            #[trigger] spec_resolve_step(both, c) && resolves_to_n(c, out, (n - 1) as nat);
        let idx = choose|idx: int|
            #[trigger] spec_first_overlap_at(both, idx) && c.to_multiset() == spec_resolve_at(
                both,
                idx,
            ).to_multiset() && sorted_ranges(c);
        assert(idx == 0);
        assert(spec_resolved_pair(a, b) == seq![merged]);
        assert(spec_resolve_at(both, 0) =~= seq![merged]) by {
            assert(both.take(0) =~= Seq::<StyleRange>::empty());
            assert(both.skip(2) =~= Seq::<StyleRange>::empty());
        }
        assert(c.to_multiset() == seq![merged].to_multiset());
        assert(c.to_multiset().len() == seq![merged].to_multiset().len());
        assert(c.len() == 1);
        assert(c.contains(c[0]));
        assert(c.to_multiset().count(c[0]) > 0);
        assert(seq![merged].contains(c[0]));
        assert(c =~= seq![merged]);
        assert forall|i: int| !(#[trigger] has_overlap_at(c, i)) by {}
        lemma_resolves_stuck(c, out, (n - 1) as nat);
    }
}

/// Replacing the two spans at `idx`, `idx + 1` by a little sequence `w` that
/// covers exactly the same offsets keeps the whole sequence's coverage, keeps
/// every span nonempty, covers no offset more often than before, and shifts
/// the summed width by the widths exchanged.
proof fn lemma_replace_segment(
    before: Seq<StyleRange>,
    idx: int,
    w: Seq<StyleRange>,
    after: Seq<StyleRange>,
)
    requires
        0 <= idx,
        idx + 2 <= before.len(),
        after == before.take(idx) + w + before.skip(idx + 2),
        all_nonempty(before),
        all_nonempty(w),
        forall|p: int|
            covers(w, p) <==> in_range(before[idx], p) || in_range(before[idx + 1], p),
        forall|p: int| #[trigger] cover_count(w, p) <= cover_count(
            seq![before[idx], before[idx + 1]],
            p,
        ),
    ensures
        all_nonempty(after),
        same_coverage(after, before),
        covers_no_more(after, before),
        sum_lens(after) == sum_lens(before) - (before[idx].end - before[idx].start) - (before[idx
            + 1].end - before[idx + 1].start) + sum_lens(w),
{
    let pre = before.take(idx);
    let post = before.skip(idx + 2);
    let seg = seq![before[idx], before[idx + 1]];
    assert(before =~= (pre + seg) + post);

    lemma_covers_concat(pre, seg);
    lemma_covers_concat(pre + seg, post);
    lemma_covers_concat(pre, w);
    lemma_covers_concat(pre + w, post);
    lemma_covers_pair(seg);

    lemma_sum_lens_concat(pre, seg);
    lemma_sum_lens_concat(pre + seg, post);
    lemma_sum_lens_concat(pre, w);
    lemma_sum_lens_concat(pre + w, post);
    lemma_sum_pair(before[idx], before[idx + 1]);

    assert(all_nonempty(after)) by {
        assert forall|k: int| 0 <= k < after.len() implies range_nonempty(after[k]) by {
            if k < pre.len() {
                assert(after[k] == before[k]);
            } else if k < pre.len() + w.len() {
                assert(after[k] == w[k - pre.len()]);
            } else {
                assert(after[k] == post[k - pre.len() - w.len()]);
                assert(post[k - pre.len() - w.len()] == before[k - w.len() + 2]);
            }
        }
    }

    assert forall|p: int| covers(after, p) <==> covers(before, p) by {
        assert(covers(after, p) <==> covers(pre + w, p) || covers(post, p));
        assert(covers(pre + w, p) <==> covers(pre, p) || covers(w, p));
        assert(covers(before, p) <==> covers(pre + seg, p) || covers(post, p));
        assert(covers(pre + seg, p) <==> covers(pre, p) || covers(seg, p));
        assert(covers(seg, p) <==> in_range(seg[0], p) || in_range(seg[1], p));
        assert(covers(w, p) <==> covers(seg, p));
    }

    assert forall|p: int| #[trigger] cover_count(after, p) <= cover_count(before, p) by {
        lemma_cover_count_concat(pre, w, p);
        lemma_cover_count_concat(pre + w, post, p);
        lemma_cover_count_concat(pre, seg, p);
        lemma_cover_count_concat(pre + seg, post, p);
        assert(cover_count(w, p) <= cover_count(seg, p));
    }
}

/// Replacing the two spans at `idx`, `idx + 1` by a little sequence `w` that
/// keeps each span's own style on the offsets the other span does not touch
/// preserves the style of every offset that was covered exactly once.
#[verifier::rlimit(50)]
proof fn lemma_replace_keeps_unique(
    before: Seq<StyleRange>,
    idx: int,
    w: Seq<StyleRange>,
    after: Seq<StyleRange>,
)
    requires
        0 <= idx,
        idx + 2 <= before.len(),
        after == before.take(idx) + w + before.skip(idx + 2),
        forall|p: int|
            #[trigger] in_range(before[idx], p) && !in_range(before[idx + 1], p) ==> exists|m: int|
                0 <= m < w.len() && #[trigger] in_range(w[m], p) && w[m].style
                    == before[idx].style,
        forall|p: int|
            #[trigger] in_range(before[idx + 1], p) && !in_range(before[idx], p) ==> exists|
                m: int,
            |
                0 <= m < w.len() && #[trigger] in_range(w[m], p) && w[m].style == before[idx
                    + 1].style,
    ensures
        keeps_unique_styles(after, before),
{
    assert forall|i: int, p: int|
        0 <= i < before.len() && #[trigger] in_range(before[i], p) && cover_count(before, p)
            == 1 implies exists|k: int|
        0 <= k < after.len() && #[trigger] in_range(after[k], p) && after[k].style
            == before[i].style by {
        if i == idx || i == idx + 1 {
            let other = if i == idx {
                idx + 1
            } else {
                idx
            };
            if in_range(before[other], p) {
                lemma_cover_count_members(before, p, i, other);
                assert(false);
            }
            let m = choose|m: int|
                0 <= m < w.len() && #[trigger] in_range(w[m], p) && w[m].style
                    == before[i].style;
            assert(after[idx + m] == w[m]);
            assert(in_range(after[idx + m], p));
        } else if i < idx {
            assert(after[i] == before[i]);
            assert(in_range(after[i], p));
        } else {
            assert(after[i + w.len() - 2] == before[i]);
            assert(in_range(after[i + w.len() - 2], p));
        }
    }
}

fn range_lt(a: &StyleRange, b: &StyleRange) -> (r: bool)
    ensures
        r == (a.start < b.start || (a.start == b.start && a.end < b.end)),
{
    a.start < b.start || (a.start == b.start && a.end < b.end)
}

/// Sorts the spans by `(start, end)`, keeping exactly the same spans.
fn sort_ranges(v: &mut Vec<StyleRange>)
    ensures
        final(v)@.to_multiset() == old(v)@.to_multiset(),
        final(v)@.len() == old(v)@.len(),
        sorted_ranges(final(v)@),
        sum_lens(final(v)@) == sum_lens(old(v)@),
{
    broadcast use group_to_multiset_ensures;

    let mut out: Vec<StyleRange> = Vec::new();
    let ghost orig = v@;

    proof {
        assert(out@.to_multiset().add(v@.to_multiset()) =~= orig.to_multiset());
    }

    while v.len() > 0
        invariant
            out@.to_multiset().add(v@.to_multiset()) == orig.to_multiset(),
            sum_lens(out@) + sum_lens(v@) == sum_lens(orig),
            sorted_ranges(out@),
            forall|i: int, j: int|
                0 <= i < out@.len() && 0 <= j < v@.len() ==> range_leq(
                    #[trigger] out@[i],
                    #[trigger] v@[j],
                ),
        decreases v.len(),
    {
        let mut m: usize = 0;
        let mut k: usize = 1;
        while k < v.len()
            invariant
                0 <= m < k <= v.len(),
                v.len() > 0,
                forall|j: int| 0 <= j < k ==> range_leq(v@[m as int], #[trigger] v@[j]),
            decreases v.len() - k,
        {
            if range_lt(&v[k], &v[m]) {
                m = k;
            }
            k = k + 1;
        }

        let ghost before = v@;
        let ghost out_before = out@;
        let x = v.remove(m);
        out.push(x);

        proof {
            broadcast use group_to_multiset_ensures;

            assert(sum_lens(before.remove(m as int)) == sum_lens(before) - (x.end - x.start)) by {
                assert(before.remove(m as int) =~= before.take(m as int) + before.skip(
                    m as int + 1,
                ));
                assert(before =~= (before.take(m as int) + seq![x]) + before.skip(m as int + 1));
                lemma_sum_lens_concat(before.take(m as int), before.skip(m as int + 1));
                lemma_sum_lens_concat(before.take(m as int) + seq![x], before.skip(m as int + 1));
                lemma_sum_lens_concat(before.take(m as int), seq![x]);
                assert(seq![x].drop_last() =~= Seq::<StyleRange>::empty());
                assert(seq![x].last() == x);
                assert(sum_lens(Seq::<StyleRange>::empty()) == 0);
                assert(sum_lens(seq![x]) == x.end - x.start);
            }
            assert(out@.drop_last() =~= out_before);
            assert(out@ == out_before.push(x));
            assert(sum_lens(out@) == sum_lens(out_before) + (x.end - x.start));
            assert(before.contains(x));
            assert(before.to_multiset().count(x) > 0);
            assert(out@.to_multiset() == out_before.push(x).to_multiset());
            assert(out_before.push(x).to_multiset() == out_before.to_multiset().insert(x));
            assert(v@.to_multiset() == before.remove(m as int).to_multiset());
            assert(before.remove(m as int).to_multiset() == before.to_multiset().remove(x));
            assert(out@.to_multiset().add(v@.to_multiset()) =~= orig.to_multiset());
        }
    }

    proof {
        assert(v@.to_multiset().len() == 0);
        assert(v@.to_multiset() =~= Multiset::<StyleRange>::empty());
        assert(out@.to_multiset().add(v@.to_multiset()) =~= out@.to_multiset());
        assert(out@.len() == out@.to_multiset().len());
        assert(orig.len() == orig.to_multiset().len());
    }
    *v = out;
}

/// Two spans share a start: compose them over the shorter span, and keep the
/// later span's remainder, if any.
fn resolve_equal_starts(styles: &mut Vec<StyleRange>, idx: usize)
    requires
        idx + 1 < old(styles).len(),
        all_nonempty(old(styles)@),
        old(styles)@[idx as int].start == old(styles)@[idx as int + 1].start,
        old(styles)@[idx as int].end <= old(styles)@[idx as int + 1].end,
        old(styles)@[idx as int].end > old(styles)@[idx as int + 1].start,
    ensures
        all_nonempty(final(styles)@),
        same_coverage(final(styles)@, old(styles)@),
        covers_no_more(final(styles)@, old(styles)@),
        keeps_unique_styles(final(styles)@, old(styles)@),
        final(styles)@ == spec_resolve_at(old(styles)@, idx as int),
        sum_lens(final(styles)@) < sum_lens(old(styles)@),
        final(styles).len() >= 1,
{
    let a = styles[idx];
    let b = styles[idx + 1];
    let ghost before = styles@;
    let composed = compose_style(&a.style, &b.style);
    let merged = StyleRange { start: a.start, end: a.end, style: composed };
    styles[idx] = merged;
    if b.end > a.end {
        let rest = StyleRange { start: a.end, end: b.end, style: b.style };
        styles[idx + 1] = rest;
        proof {
            let w = seq![merged, rest];
            let ai = before[idx as int];
            let bi = before[idx as int + 1];
            assert(styles@ =~= before.take(idx as int) + w + before.skip(idx as int + 2));
            assert(w == spec_resolved_pair(before[idx as int], before[idx as int + 1]));
            assert(styles@ == spec_resolve_at(before, idx as int));
            lemma_covers_pair(w);
            lemma_sum_pair(merged, rest);
            assert forall|p: int| #[trigger] cover_count(w, p) <= cover_count(
                seq![ai, bi],
                p,
            ) by {
                lemma_cover_count_pair(merged, rest, p);
                lemma_cover_count_pair(ai, bi, p);
            }
            lemma_replace_segment(before, idx as int, w, styles@);
            assert forall|p: int| #[trigger] in_range(ai, p) && !in_range(bi, p) implies exists|
                m: int,
            |
                0 <= m < w.len() && #[trigger] in_range(w[m], p) && w[m].style == ai.style by {
                assert(in_range(bi, p));
            }
            assert forall|p: int| #[trigger] in_range(bi, p) && !in_range(ai, p) implies exists|
                m: int,
            |
                0 <= m < w.len() && #[trigger] in_range(w[m], p) && w[m].style == bi.style by {
                assert(in_range(w[1], p));
            }
            lemma_replace_keeps_unique(before, idx as int, w, styles@);
        }
    } else {
        let _dropped = styles.remove(idx + 1);
        proof {
            let w = seq![merged];
            let ai = before[idx as int];
            let bi = before[idx as int + 1];
            assert(styles@ =~= before.take(idx as int) + w + before.skip(idx as int + 2));
            assert(w == spec_resolved_pair(before[idx as int], before[idx as int + 1]));
            assert(styles@ == spec_resolve_at(before, idx as int));
            lemma_covers_single(w);
            lemma_sum_single(merged);
            assert forall|p: int| #[trigger] cover_count(w, p) <= cover_count(
                seq![ai, bi],
                p,
            ) by {
                lemma_cover_count_single(merged, p);
                lemma_cover_count_pair(ai, bi, p);
            }
            lemma_replace_segment(before, idx as int, w, styles@);
            assert forall|p: int| #[trigger] in_range(ai, p) && !in_range(bi, p) implies exists|
                m: int,
            |
                0 <= m < w.len() && #[trigger] in_range(w[m], p) && w[m].style == ai.style by {
                assert(in_range(bi, p));
            }
            assert forall|p: int| #[trigger] in_range(bi, p) && !in_range(ai, p) implies exists|
                m: int,
            |
                0 <= m < w.len() && #[trigger] in_range(w[m], p) && w[m].style == bi.style by {
                assert(in_range(ai, p));
            }
            lemma_replace_keeps_unique(before, idx as int, w, styles@);
        }
    }
}

/// The earlier span fully contains the later one: keep the prefix, back-fill
/// the contained span's unset channels from the earlier style, and clone the
/// earlier span's suffix after it.
fn resolve_contained(styles: &mut Vec<StyleRange>, idx: usize)
    requires
        idx + 1 < old(styles).len(),
        all_nonempty(old(styles)@),
        old(styles)@[idx as int].start < old(styles)@[idx as int + 1].start,
        old(styles)@[idx as int].end > old(styles)@[idx as int + 1].end,
    ensures
        all_nonempty(final(styles)@),
        same_coverage(final(styles)@, old(styles)@),
        covers_no_more(final(styles)@, old(styles)@),
        keeps_unique_styles(final(styles)@, old(styles)@),
        final(styles)@ == spec_resolve_at(old(styles)@, idx as int),
        sum_lens(final(styles)@) < sum_lens(old(styles)@),
        final(styles).len() >= 1,
{
    let a = styles[idx];
    let b = styles[idx + 1];
    let ghost before = styles@;
    let filled = Style {
        foreground: if b.style.foreground.is_some() {
            b.style.foreground
        } else {
            a.style.foreground
        },
        background: if b.style.background.is_some() {
            b.style.background
        } else {
            a.style.background
        },
        italic: b.style.italic,
    };
    let prefix = StyleRange { start: a.start, end: b.start, style: a.style };
    let inner = StyleRange { start: b.start, end: b.end, style: filled };
    let suffix = StyleRange { start: b.end, end: a.end, style: a.style };
    styles[idx] = prefix;
    styles[idx + 1] = inner;
    styles.insert(idx + 2, suffix);
    proof {
        let w = seq![prefix, inner, suffix];
        let ai = before[idx as int];
        let bi = before[idx as int + 1];
        assert(styles@ =~= before.take(idx as int) + w + before.skip(idx as int + 2));
        assert(w == spec_resolved_pair(before[idx as int], before[idx as int + 1]));
        assert(styles@ == spec_resolve_at(before, idx as int));
        lemma_covers_triple(w);
        lemma_sum_triple(prefix, inner, suffix);
        assert forall|p: int| #[trigger] cover_count(w, p) <= cover_count(seq![ai, bi], p) by {
            lemma_cover_count_triple(prefix, inner, suffix, p);
            lemma_cover_count_pair(ai, bi, p);
        }
        lemma_replace_segment(before, idx as int, w, styles@);
        assert forall|p: int| #[trigger] in_range(ai, p) && !in_range(bi, p) implies exists|
            m: int,
        |
            0 <= m < w.len() && #[trigger] in_range(w[m], p) && w[m].style == ai.style by {
            if p < bi.start {
                assert(in_range(w[0], p));
            } else {
                assert(in_range(w[2], p));
            }
        }
        assert forall|p: int| #[trigger] in_range(bi, p) && !in_range(ai, p) implies exists|
            m: int,
        |
            0 <= m < w.len() && #[trigger] in_range(w[m], p) && w[m].style == bi.style by {
            assert(in_range(ai, p));
        }
        lemma_replace_keeps_unique(before, idx as int, w, styles@);
    }
}

/// Partial overlap with different starts: keep the earlier span's own prefix,
/// compose the shared middle, and keep the later span's remainder, if any.
fn resolve_partial(styles: &mut Vec<StyleRange>, idx: usize)
    requires
        idx + 1 < old(styles).len(),
        all_nonempty(old(styles)@),
        old(styles)@[idx as int].start < old(styles)@[idx as int + 1].start,
        old(styles)@[idx as int].end <= old(styles)@[idx as int + 1].end,
        old(styles)@[idx as int].end > old(styles)@[idx as int + 1].start,
    ensures
        all_nonempty(final(styles)@),
        same_coverage(final(styles)@, old(styles)@),
        covers_no_more(final(styles)@, old(styles)@),
        keeps_unique_styles(final(styles)@, old(styles)@),
        final(styles)@ == spec_resolve_at(old(styles)@, idx as int),
        sum_lens(final(styles)@) < sum_lens(old(styles)@),
        final(styles).len() >= 1,
{
    let a = styles[idx];
    let b = styles[idx + 1];
    let ghost before = styles@;
    let composed = compose_style(&a.style, &b.style);
    let prefix = StyleRange { start: a.start, end: b.start, style: a.style };
    let middle = StyleRange { start: b.start, end: a.end, style: composed };
    styles[idx] = prefix;
    if b.end > a.end {
        let rest = StyleRange { start: a.end, end: b.end, style: b.style };
        styles[idx + 1] = rest;
        styles.insert(idx + 1, middle);
        proof {
            let w = seq![prefix, middle, rest];
            let ai = before[idx as int];
            let bi = before[idx as int + 1];
            assert(styles@ =~= before.take(idx as int) + w + before.skip(idx as int + 2));
            assert(w == spec_resolved_pair(before[idx as int], before[idx as int + 1]));
            assert(styles@ == spec_resolve_at(before, idx as int));
            lemma_covers_triple(w);
            lemma_sum_triple(prefix, middle, rest);
            assert forall|p: int| #[trigger] cover_count(w, p) <= cover_count(
                seq![ai, bi],
                p,
            ) by {
                lemma_cover_count_triple(prefix, middle, rest, p);
                lemma_cover_count_pair(ai, bi, p);
            }
            lemma_replace_segment(before, idx as int, w, styles@);
            assert forall|p: int| #[trigger] in_range(ai, p) && !in_range(bi, p) implies exists|
                m: int,
            |
                0 <= m < w.len() && #[trigger] in_range(w[m], p) && w[m].style == ai.style by {
                assert(in_range(w[0], p));
            }
            assert forall|p: int| #[trigger] in_range(bi, p) && !in_range(ai, p) implies exists|
                m: int,
            |
                0 <= m < w.len() && #[trigger] in_range(w[m], p) && w[m].style == bi.style by {
                assert(in_range(w[2], p));
            }
            lemma_replace_keeps_unique(before, idx as int, w, styles@);
        }
    } else {
        styles[idx + 1] = middle;
        proof {
            let w = seq![prefix, middle];
            let ai = before[idx as int];
            let bi = before[idx as int + 1];
            assert(styles@ =~= before.take(idx as int) + w + before.skip(idx as int + 2));
            assert(w == spec_resolved_pair(before[idx as int], before[idx as int + 1]));
            assert(styles@ == spec_resolve_at(before, idx as int));
            lemma_covers_pair(w);
            lemma_sum_pair(prefix, middle);
            assert forall|p: int| #[trigger] cover_count(w, p) <= cover_count(
                seq![ai, bi],
                p,
            ) by {
                lemma_cover_count_pair(prefix, middle, p);
                lemma_cover_count_pair(ai, bi, p);
            }
            lemma_replace_segment(before, idx as int, w, styles@);
            assert forall|p: int| #[trigger] in_range(ai, p) && !in_range(bi, p) implies exists|
                m: int,
            |
                0 <= m < w.len() && #[trigger] in_range(w[m], p) && w[m].style == ai.style by {
                assert(in_range(w[0], p));
            }
            assert forall|p: int| #[trigger] in_range(bi, p) && !in_range(ai, p) implies exists|
                m: int,
            |
                0 <= m < w.len() && #[trigger] in_range(w[m], p) && w[m].style == bi.style by {
                assert(in_range(ai, p));
            }
            lemma_replace_keeps_unique(before, idx as int, w, styles@);
        }
    }
}

/// Clamps an offset into the range representable by a span bound.
pub open spec fn clamp_offset(x: int) -> int {
    if x < 0 {
        0
    } else if x > u32::MAX as int {
        u32::MAX as int
    } else {
        x
    }
}

/// The absolute spans described by the relatively-encoded triples
/// `(start_delta, length, style_id)` from triple `k` on, with the running
/// cursor at `cursor`.  Each triple's span starts `start_delta` after the end
/// of the previous triple's span; its style id is looked up in `reg`, an
/// unknown id falling back to the default style.  A zero-length span is kept
/// as it stands; only a span that falls outside the representable offsets is
/// dropped.
pub open spec fn spec_triples_to_ranges(
    reg: Map<int, Style>,
    inputs: Seq<i16>,
    k: int,
    cursor: int,
) -> Seq<StyleRange>
    decreases inputs.len() / 3 - k,
{
    if k < 0 || k >= inputs.len() / 3 {
        Seq::empty()
    } else {
        let delta = inputs[3 * k] as int;
        let length = inputs[3 * k + 1] as int;
        let id = inputs[3 * k + 2] as int;
        let start = cursor + delta;
        let end = start + length;
        let rest = spec_triples_to_ranges(reg, inputs, k + 1, clamp_offset(end));
        if 0 <= start && start <= end && end <= u32::MAX as int {
            seq![
                StyleRange {
                    start: start as u32,
                    end: end as u32,
                    style: crate::style::spec_style_of(reg, id),
                },
            ] + rest
        } else {
            rest
        }
    }
}

impl TermionStyles {
    /// Converts the relatively-encoded triples into absolute spans, sorted by
    /// `(start, end)`; the spans are exactly those that
    /// [`spec_triples_to_ranges`] describes.
    pub fn convert_to_style_range(&self, inputs: &Vec<i16>) -> (r: Vec<StyleRange>)
        ensures
            sorted_ranges(r@),
            r@.to_multiset() == spec_triples_to_ranges(
                self.styles_map(),
                inputs@,
                0,
                0,
            ).to_multiset(),
            same_coverage(r@, spec_triples_to_ranges(self.styles_map(), inputs@, 0, 0)),
    {
        let ghost reg = self.styles_map();
        let ghost full = spec_triples_to_ranges(reg, inputs@, 0, 0);
        let n: usize = inputs.len() / 3;
        let mut out: Vec<StyleRange> = Vec::new();
        let mut cursor: i64 = 0;
        let mut k: usize = 0;

        proof {
            assert(full =~= out@ + spec_triples_to_ranges(reg, inputs@, 0, 0));
            assert(3 * n <= inputs.len() && n == inputs@.len() / 3) by (nonlinear_arith)
                requires
                    n == inputs.len() / 3,
                    inputs.len() == inputs@.len(),
            ;
        }

        while k < n
            invariant
                n == inputs@.len() / 3,
                k <= n,
                3 * n <= inputs.len(),
                0 <= cursor <= u32::MAX,
                reg == self.styles_map(),
                full == spec_triples_to_ranges(reg, inputs@, 0, 0),
                full == out@ + spec_triples_to_ranges(reg, inputs@, k as int, cursor as int),
            decreases n - k,
        {
            let ghost pre = spec_triples_to_ranges(reg, inputs@, k as int, cursor as int);
            let ghost out_before = out@;
            let delta = inputs[3 * k] as i64;
            let length = inputs[3 * k + 1] as i64;
            let id = inputs[3 * k + 2];
            let start = cursor + delta;
            let end = start + length;
            if 0 <= start && start <= end && end <= u32::MAX as i64 {
                let style = self.style_of(id);
                out.push(StyleRange { start: start as u32, end: end as u32, style });
            }
            cursor = if end < 0 {
                0
            } else if end > u32::MAX as i64 {
                u32::MAX as i64
            } else {
                end
            };
            k = k + 1;
            proof {
                let rest = spec_triples_to_ranges(reg, inputs@, k as int, cursor as int);
                if 0 <= start && start <= end && end <= u32::MAX as i64 {
                    assert(pre =~= seq![out@.last()] + rest);
                    assert(out_before + (seq![out@.last()] + rest) =~= (out_before + seq![
                        out@.last(),
                    ]) + rest);
                    assert(out@ =~= out_before + seq![out@.last()]);
                } else {
                    assert(pre == rest);
                }
            }
        }

        proof {
            assert(spec_triples_to_ranges(reg, inputs@, k as int, cursor as int)
                =~= Seq::<StyleRange>::empty());
            assert(out@ =~= out@ + Seq::<StyleRange>::empty());
            assert(out@ == full);
        }

        let ghost presort = out@;
        sort_ranges(&mut out);
        proof {
            lemma_multiset_coverage(presort, out@);
        }
        out
    }
}

/// Fills every gap between the chained spans, and before the first and after
/// the last, with a default-style span, clamping everything to `[0, len)`:
/// the result tiles `[0, len)` exactly.
#[verifier::rlimit(50)]
fn fill_gaps(ranges: &Vec<StyleRange>, len: u32) -> (r: Vec<StyleRange>)
    requires
        chained_disjoint(ranges@),
        all_nonempty(ranges@),
    ensures
        all_nonempty(r@),
        forall|i: int| 0 <= i < r@.len() - 1 ==> (#[trigger] r@[i]).end == r@[i + 1].start,
        (r@.len() == 0) <==> (len == 0),
        r@.len() > 0 ==> r@[0].start == 0 && r@[r@.len() - 1].end == len,
        forall|k: int|
            0 <= k < r@.len() ==> (#[trigger] r@[k]).style == crate::style::spec_default_style()
                || exists|j: int|
                0 <= j < ranges@.len() && r@[k].style == (#[trigger] ranges@[j]).style
                    && ranges@[j].start <= r@[k].start && r@[k].end <= ranges@[j].end,
        forall|j: int, p: int|
            0 <= j < ranges@.len() && #[trigger] in_range(ranges@[j], p) && p < len ==> exists|
                k: int,
            |
                0 <= k < r@.len() && #[trigger] in_range(r@[k], p) && r@[k].style
                    == ranges@[j].style,
{
    let mut out: Vec<StyleRange> = Vec::new();
    let mut cursor: u32 = 0;
    let mut i: usize = 0;

    while i < ranges.len()
        invariant
            chained_disjoint(ranges@),
            all_nonempty(ranges@),
            i <= ranges.len(),
            cursor <= len,
            out@.len() == 0 ==> cursor == 0,
            i > 0 ==> cursor as int == (if ranges@[i - 1].end < len {
                ranges@[i - 1].end as int
            } else {
                len as int
            }),
            i == 0 ==> cursor == 0,
            all_nonempty(out@),
            forall|a: int|
                0 <= a < out@.len() - 1 ==> (#[trigger] out@[a]).end == out@[a + 1].start,
            out@.len() > 0 ==> out@[0].start == 0 && out@[out@.len() - 1].end == cursor,
            forall|k: int|
                0 <= k < out@.len() ==> (#[trigger] out@[k]).style
                    == crate::style::spec_default_style() || exists|j: int|
                    0 <= j < ranges@.len() && out@[k].style == (#[trigger] ranges@[j]).style
                        && ranges@[j].start <= out@[k].start && out@[k].end <= ranges@[j].end,
            forall|j: int, p: int|
                0 <= j < i && #[trigger] in_range(ranges@[j], p) && p < len ==> exists|k: int|
                    0 <= k < out@.len() && #[trigger] in_range(out@[k], p) && out@[k].style
                        == ranges@[j].style,
        decreases ranges.len() - i,
    {
        let ghost out_at_entry = out@;
        let ghost cursor_at_entry = cursor;
        let r = ranges[i];
        let s = if r.start < len {
            r.start
        } else {
            len
        };
        let e = if r.end < len {
            r.end
        } else {
            len
        };
        proof {
            if i > 0 {
                assert(ranges@[i - 1].end <= ranges@[i as int].start);
            }
            assert(cursor <= s);
        }
        if cursor < s {
            out.push(StyleRange { start: cursor, end: s, style: crate::style::default_style() });
        }
        if s < e {
            out.push(StyleRange { start: s, end: e, style: r.style });
        }
        proof {
            assert forall|j: int, p: int|
                0 <= j < i + 1 && #[trigger] in_range(ranges@[j], p) && p < len implies exists|
                k: int,
            |
                0 <= k < out@.len() && #[trigger] in_range(out@[k], p) && out@[k].style
                    == ranges@[j].style by {
                if j < i {
                    let k = choose|k: int|
                        0 <= k < out_at_entry.len() && #[trigger] in_range(out_at_entry[k], p)
                            && out_at_entry[k].style == ranges@[j].style;
                    assert(out@[k] == out_at_entry[k]);
                    assert(in_range(out@[k], p));
                } else {
                    assert(s < e);
                    let k = out@.len() - 1;
                    assert(out@[k].start == s && out@[k].end == e);
                    assert(in_range(out@[k], p));
                }
            }
            if s < e {
                let k = out@.len() - 1;
                assert(out@[k].style == ranges@[i as int].style && ranges@[i as int].start
                    <= out@[k].start && out@[k].end <= ranges@[i as int].end);
            }
        }
        cursor = e;
        i = i + 1;
    }

    let ghost out_walked = out@;
    if cursor < len {
        out.push(StyleRange { start: cursor, end: len, style: crate::style::default_style() });
        proof {
            assert forall|j: int, p: int|
                0 <= j < ranges@.len() && #[trigger] in_range(ranges@[j], p) && p < len implies
                exists|k: int|
                    0 <= k < out@.len() && #[trigger] in_range(out@[k], p) && out@[k].style
                        == ranges@[j].style by {
                let k = choose|k: int|
                    0 <= k < out_walked.len() && #[trigger] in_range(out_walked[k], p)
                        && out_walked[k].style == ranges@[j].style;
                assert(out@[k] == out_walked[k]);
                assert(in_range(out@[k], p));
            }
            assert forall|k: int|
                0 <= k < out@.len() implies (#[trigger] out@[k]).style
                    == crate::style::spec_default_style() || exists|j: int|
                    0 <= j < ranges@.len() && out@[k].style == (#[trigger] ranges@[j]).style
                        && ranges@[j].start <= out@[k].start && out@[k].end <= ranges@[j].end by {
                if k < out_walked.len() {
                    assert(out@[k] == out_walked[k]);
                } else {
                    assert(out@[k].style == crate::style::spec_default_style());
                }
            }
        }
    }
    out
}

impl TermionStyles {
    /// Resolves overlaps between sorted spans, splitting and composing them
    /// until they stand sorted and pairwise disjoint.  Zero-width spans are
    /// discarded first: they cover no offset and paint nothing.  The result
    /// covers exactly the offsets the input covered, never more often, every
    /// offset only one input span covered keeps that span's style, and the
    /// result is reached from the input's nonempty spans by the pairwise
    /// resolution steps of [`spec_resolve_step`].
    #[verifier::rlimit(60)]
    pub fn serialize_style_ranges(&self, styles: &mut Vec<StyleRange>)
        requires
            sorted_ranges(old(styles)@),
        ensures
            all_nonempty(final(styles)@),
            chained_disjoint(final(styles)@),
            same_coverage(final(styles)@, old(styles)@),
            covers_no_more(final(styles)@, old(styles)@),
            keeps_unique_styles(final(styles)@, old(styles)@),
            exists|n: nat|
                #[trigger] resolves_to_n(nonempty_spans(old(styles)@), final(styles)@, n),
    {
        let ghost whole = old(styles)@;
        discard_empty(styles);
        let ghost orig = styles@;
        proof {
            assert forall|i: int, p: int|
                0 <= i < orig.len() && #[trigger] in_range(orig[i], p) && cover_count(orig, p)
                    == 1 implies exists|k: int|
                0 <= k < styles@.len() && #[trigger] in_range(styles@[k], p) && styles@[k].style
                    == orig[i].style by {
                assert(in_range(styles@[i], p));
            }
            assert forall|p: int| covers(styles@, p) <==> covers(whole, p) by {
                lemma_cover_count_pos(styles@, p);
                lemma_cover_count_pos(whole, p);
            }
        }
        if styles.len() == 0 {
            proof {
                assert(resolves_to_n(nonempty_spans(whole), styles@, 0nat));
                assert forall|p: int| #[trigger] cover_count(styles@, p) <= cover_count(
                    whole,
                    p,
                ) by {
                    assert(cover_count(styles@, p) == cover_count(whole, p));
                }
                assert forall|i: int, p: int|
                    0 <= i < whole.len() && #[trigger] in_range(whole[i], p) && cover_count(
                        whole,
                        p,
                    ) == 1 implies exists|k: int|
                    0 <= k < styles@.len() && #[trigger] in_range(styles@[k], p)
                        && styles@[k].style == whole[i].style by {
                    assert(cover_count(styles@, p) == cover_count(whole, p));
                    assert(cover_count(styles@, p) == 0);
                    assert(false);
                }
            }
            return;
        }
        let mut idx: usize = 0;
        let ghost mut steps: nat = 0nat;
        while idx + 1 < styles.len()
            invariant
                styles@.len() >= 1,
                idx < styles.len(),
                sorted_ranges(styles@),
                all_nonempty(styles@),
                same_coverage(styles@, orig),
                covers_no_more(styles@, orig),
                keeps_unique_styles(styles@, orig),
                orig == nonempty_spans(whole),
                resolves_to_n(orig, styles@, steps),
                forall|j: int|
                    0 <= j < idx ==> (#[trigger] styles@[j]).end <= styles@[j + 1].start,
            decreases sum_lens(styles@), styles@.len() - idx,
        {
            let a = styles[idx];
            let b = styles[idx + 1];
            proof {
                lemma_sum_lens_nonneg(styles@);
                assert(range_leq(styles@[idx as int], styles@[idx as int + 1]));
            }
            if a.end <= b.start {
                idx = idx + 1;
            } else {
                let ghost before = styles@;
                if a.start == b.start {
                    resolve_equal_starts(styles, idx);
                } else if a.end > b.end {
                    resolve_contained(styles, idx);
                } else {
                    resolve_partial(styles, idx);
                }

                let ghost presort = styles@;
                sort_ranges(styles);
                proof {
                    lemma_multiset_coverage(presort, styles@);
                    lemma_sum_lens_nonneg(styles@);
                    lemma_unique_styles_trans(presort, before, orig);
                    lemma_unique_styles_multiset(presort, styles@, orig);
                    assert forall|j: int| 0 <= j < idx implies !(#[trigger] has_overlap_at(
                        before,
                        j,
                    )) by {
                        assert(before[j].end <= before[j + 1].start);
                    }
                    assert(spec_first_overlap_at(before, idx as int));
                    assert(presort == spec_resolve_at(before, idx as int));
                    assert(styles@.to_multiset() == spec_resolve_at(
                        before,
                        idx as int,
                    ).to_multiset());
                    assert(spec_resolve_step(before, styles@));
                    lemma_resolves_to_extend(orig, before, styles@, steps);
                    steps = steps + 1;
                }
                idx = 0;
            }
        }
        proof {
            assert forall|p: int| covers(styles@, p) <==> covers(whole, p) by {
                assert(covers(styles@, p) <==> covers(orig, p));
                lemma_cover_count_pos(orig, p);
                lemma_cover_count_pos(whole, p);
                assert(cover_count(orig, p) == cover_count(whole, p));
            }
            assert forall|p: int| #[trigger] cover_count(styles@, p) <= cover_count(
                whole,
                p,
            ) by {
                assert(cover_count(styles@, p) <= cover_count(orig, p));
                assert(cover_count(orig, p) == cover_count(whole, p));
            }
            assert forall|i: int, p: int|
                0 <= i < whole.len() && #[trigger] in_range(whole[i], p) && cover_count(whole, p)
                    == 1 implies exists|k: int|
                0 <= k < styles@.len() && #[trigger] in_range(styles@[k], p) && styles@[k].style
                    == whole[i].style by {
                assert(range_nonempty(whole[i]));
                let m = choose|m: int| 0 <= m < orig.len() && #[trigger] orig[m] == whole[i];
                assert(in_range(orig[m], p));
                assert(cover_count(orig, p) == cover_count(whole, p));
                let k = choose|k: int|
                    0 <= k < styles@.len() && #[trigger] in_range(styles@[k], p)
                        && styles@[k].style == orig[m].style;
                assert(in_range(styles@[k], p));
            }
            assert(resolves_to_n(nonempty_spans(whole), styles@, steps));
        }
    }
}

/// How a line's paint plan `plan`, over a line of `len` characters, comes
/// from its encoded spans `conv`: some sorted arrangement of them, with
/// zero-width spans dropped, resolves by the pairwise steps of
/// [`spec_resolve_step`] into a disjoint chain `resolved`; every non-default
/// style of the plan lies inside a `resolved` span carrying that style, and
/// every offset a `resolved` span covers below `len` keeps that span's
/// style in the plan.
pub open spec fn spec_resolved_plan(
    conv: Seq<StyleRange>,
    plan: Seq<StyleRange>,
    len: int,
) -> bool {
    exists|s0: Seq<StyleRange>, resolved: Seq<StyleRange>, n: nat|
        {
            &&& sorted_ranges(s0)
            &&& s0.to_multiset() == conv.to_multiset()
            &&& #[trigger] resolves_to_n(nonempty_spans(s0), resolved, n)
            &&& all_nonempty(resolved)
            &&& chained_disjoint(resolved)
            &&& forall|k: int|
                0 <= k < plan.len() ==> (#[trigger] plan[k]).style
                    == crate::style::spec_default_style() || exists|j: int|
                    0 <= j < resolved.len() && plan[k].style == (#[trigger] resolved[j]).style
                        && resolved[j].start <= plan[k].start && plan[k].end <= resolved[j].end
            &&& forall|j: int, p: int|
                0 <= j < resolved.len() && #[trigger] in_range(resolved[j], p) && p < len
                    ==> exists|k: int|
                    0 <= k < plan.len() && #[trigger] in_range(plan[k], p) && plan[k].style
                        == resolved[j].style
        }
}

impl TermionStyles {
    /// Turns a line's relatively-encoded style triples into the resolved,
    /// sorted, non-overlapping spans, without filling gaps.  The result is
    /// reached from the encoded spans, sorted and with zero-width spans
    /// dropped, by the pairwise resolution steps of [`spec_resolve_step`];
    /// an offset exactly one encoded span covers keeps that span's style.
    pub fn new_line_descriptor(&self, inputs: &Vec<i16>) -> (r: Vec<StyleRange>)
        ensures
            all_nonempty(r@),
            chained_disjoint(r@),
            sorted_ranges(r@),
            same_coverage(r@, spec_triples_to_ranges(self.styles_map(), inputs@, 0, 0)),
            covers_no_more(r@, spec_triples_to_ranges(self.styles_map(), inputs@, 0, 0)),
            keeps_unique_styles(r@, spec_triples_to_ranges(self.styles_map(), inputs@, 0, 0)),
            exists|s0: Seq<StyleRange>, n: nat|
                {
                    &&& sorted_ranges(s0)
                    &&& s0.to_multiset() == spec_triples_to_ranges(
                        self.styles_map(),
                        inputs@,
                        0,
                        0,
                    ).to_multiset()
                    &&& #[trigger] resolves_to_n(nonempty_spans(s0), r@, n)
                },
    {
        let ghost conv = spec_triples_to_ranges(self.styles_map(), inputs@, 0, 0);
        let mut ranges = self.convert_to_style_range(inputs);
        let ghost sorted_conv = ranges@;
        self.serialize_style_ranges(&mut ranges);
        proof {
            lemma_unique_styles_reference_multiset(ranges@, sorted_conv, conv);
            let n = choose|n: nat| #[trigger] resolves_to_n(
                nonempty_spans(sorted_conv),
                ranges@,
                n,
            );
            assert(sorted_ranges(sorted_conv) && sorted_conv.to_multiset() == conv.to_multiset()
                && resolves_to_n(nonempty_spans(sorted_conv), ranges@, n));
        }
        proof {
            assert forall|i: int, j: int| 0 <= i < j < ranges@.len() implies range_leq(
                #[trigger] ranges@[i],
                #[trigger] ranges@[j],
            ) by {
                lemma_chain_orders(ranges@, i, j);
            }
        }
        ranges
    }

    /// Resolves a line's relatively-encoded style triples against the
    /// registry into the line's paint plan: spans that chain with no gaps and
    /// no overlaps and tile exactly `[0, text length)`, gaps holding the
    /// default style.  Offsets beyond the text's end are clipped away; an
    /// offset exactly one encoded span covers keeps that span's style, and
    /// styling away from the default appears only where a span was encoded.
    pub fn apply_to(&self, raw_styles: &Vec<i16>, text: &str) -> (r: Vec<StyleRange>)
        requires
            text@.len() <= u32::MAX,
        ensures
            all_nonempty(r@),
            forall|i: int| 0 <= i < r@.len() - 1 ==> (#[trigger] r@[i]).end == r@[i + 1].start,
            (r@.len() == 0) <==> (text@.len() == 0),
            r@.len() > 0 ==> r@[0].start == 0 && r@[r@.len() - 1].end == text@.len(),
            forall|k: int, p: int|
                0 <= k < r@.len() && #[trigger] in_range(r@[k], p) && r@[k].style
                    != crate::style::spec_default_style() ==> covers(
                    spec_triples_to_ranges(self.styles_map(), raw_styles@, 0, 0),
                    p,
                ),
            ({
                let conv = spec_triples_to_ranges(self.styles_map(), raw_styles@, 0, 0);
                forall|i: int, p: int|
                    0 <= i < conv.len() && #[trigger] in_range(conv[i], p) && cover_count(conv, p)
                        == 1 && 0 <= p < text@.len() ==> exists|k: int|
                        0 <= k < r@.len() && #[trigger] in_range(r@[k], p) && r@[k].style
                            == conv[i].style
            }),
            spec_resolved_plan(
                spec_triples_to_ranges(self.styles_map(), raw_styles@, 0, 0),
                r@,
                text@.len() as int,
            ),
    {
        let resolved = self.new_line_descriptor(raw_styles);
        let len: usize = text.unicode_len();
        let r = fill_gaps(&resolved, len as u32);
        proof {
            let conv = spec_triples_to_ranges(self.styles_map(), raw_styles@, 0, 0);
            let (s0, n) = choose|s0: Seq<StyleRange>, n: nat|
                {
                    &&& sorted_ranges(s0)
                    &&& s0.to_multiset() == conv.to_multiset()
                    &&& #[trigger] resolves_to_n(nonempty_spans(s0), resolved@, n)
                };
            assert(resolves_to_n(nonempty_spans(s0), resolved@, n));
            assert(spec_resolved_plan(conv, r@, text@.len() as int));
            assert forall|k: int, p: int|
                0 <= k < r@.len() && #[trigger] in_range(r@[k], p) && r@[k].style
                    != crate::style::spec_default_style() implies covers(conv, p) by {
                let j = choose|j: int|
                    0 <= j < resolved@.len() && r@[k].style == (#[trigger] resolved@[j]).style
                        && resolved@[j].start <= r@[k].start && r@[k].end <= resolved@[j].end;
                assert(in_range(resolved@[j], p));
                assert(covers(resolved@, p));
            }
            assert forall|i: int, p: int|
                0 <= i < conv.len() && #[trigger] in_range(conv[i], p) && cover_count(conv, p)
                    == 1 && 0 <= p < text@.len() implies exists|k: int|
                0 <= k < r@.len() && #[trigger] in_range(r@[k], p) && r@[k].style
                    == conv[i].style by {
                let k1 = choose|k: int|
                    0 <= k < resolved@.len() && #[trigger] in_range(resolved@[k], p)
                        && resolved@[k].style == conv[i].style;
                assert(in_range(resolved@[k1], p));
                let k2 = choose|k: int|
                    0 <= k < r@.len() && #[trigger] in_range(r@[k], p) && r@[k].style
                        == resolved@[k1].style;
                assert(in_range(r@[k2], p));
            }
        }
        r
    }
}

} // verus!
