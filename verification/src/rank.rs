//! Ranking: a stable sort by weight, then by size, largest first.

use crate::filter::{priority, priority_of};
use crate::item::DiskItem;
use vstd::prelude::*;
use vstd::utf8::encode_utf8;

verus! {

/// The weight by which `item` is ranked.
pub open spec fn weight_of(item: DiskItem) -> u32 {
    priority_of(encode_utf8(item.path@))
}

/// Whether `a` must stand before `b`: it weighs more, or weighs the same and
/// is larger.
pub open spec fn outranks(a: DiskItem, b: DiskItem) -> bool {
    weight_of(a) > weight_of(b) || (weight_of(a) == weight_of(b) && a.size > b.size)
}

/// The items of weight `weight` and size `size`.
pub open spec fn of_rank(weight: u32, size: u64) -> spec_fn(DiskItem) -> bool {
    |item: DiskItem| weight_of(item) == weight && item.size == size
}

/// Whether no item of `items` stands behind one that it outranks.
pub open spec fn is_ranked(items: Seq<DiskItem>) -> bool {
    forall|i: int, j: int|
        0 <= i < j < items.len() ==> !outranks(#[trigger] items[j], #[trigger] items[i])
}

/// Whether `output` is the ranking of `input`: it is ranked, and for each
/// weight and size it holds the items of `input` with that weight and size,
/// in the order in which `input` holds them. There is one such sequence.
pub open spec fn is_ranking_of(output: Seq<DiskItem>, input: Seq<DiskItem>) -> bool {
    &&& is_ranked(output)
    &&& forall|weight: u32, size: u64| #[trigger]
        output.filter(of_rank(weight, size)) == input.filter(of_rank(weight, size))
}

proof fn lemma_filter_none<A>(s: Seq<A>, pred: spec_fn(A) -> bool)
    requires
        forall|i: int| 0 <= i < s.len() ==> !pred(s[i]),
    ensures
        s.filter(pred) == Seq::<A>::empty(),
    decreases s.len(),
{
    reveal(Seq::filter);
    if s.len() > 0 {
        let front = s.drop_last();
        assert forall|i: int| 0 <= i < front.len() implies !pred(front[i]) by {
            assert(front[i] == s[i]);
        }
        lemma_filter_none(front, pred);
    }
}

proof fn lemma_filter_one<A>(x: A, pred: spec_fn(A) -> bool)
    ensures
        seq![x].filter(pred) == if pred(x) {
            seq![x]
        } else {
            Seq::<A>::empty()
        },
{
    reveal_with_fuel(Seq::filter, 2);
    let s = seq![x];
    assert(s.drop_last() =~= Seq::<A>::empty());
    assert(s.last() == x);
    assert(Seq::<A>::empty().push(x) =~= seq![x]);
}

/// Putting `x` into the ranking of `rest` in front of the first item that
/// does not outrank it gives the ranking of `x` followed by `rest`.
proof fn lemma_insert_ranks(out: Seq<DiskItem>, rest: Seq<DiskItem>, x: DiskItem, at: int)
    requires
        is_ranking_of(out, rest),
        0 <= at <= out.len(),
        forall|i: int| 0 <= i < at ==> outranks(#[trigger] out[i], x),
        at < out.len() ==> !outranks(out[at], x),
    ensures
        is_ranking_of(out.insert(at, x), seq![x] + rest),
{
    broadcast use Seq::filter_distributes_over_add;

    let head = out.subrange(0, at);
    let tail = out.subrange(at, out.len() as int);
    let next = out.insert(at, x);
    assert(next =~= head + seq![x] + tail);
    assert(out =~= head + tail);
    assert forall|i: int, j: int| 0 <= i < j < next.len() implies !outranks(
        #[trigger] next[j],
        #[trigger] next[i],
    ) by {
        if j < at {
            assert(next[i] == out[i] && next[j] == out[j]);
        } else if j == at {
            assert(next[i] == out[i] && next[j] == x);
        } else if i < at {
            assert(next[i] == out[i] && next[j] == out[j - 1]);
        } else if i == at {
            assert(next[i] == x && next[j] == out[j - 1]);
            if j - 1 > at {
                assert(!outranks(out[j - 1], out[at]));
            }
        } else {
            assert(next[i] == out[i - 1] && next[j] == out[j - 1]);
        }
    }
    assert forall|weight: u32, size: u64| #[trigger]
        next.filter(of_rank(weight, size)) == (seq![x] + rest).filter(of_rank(weight, size)) by {
        let pred = of_rank(weight, size);
        lemma_filter_one(x, pred);
        assert(out.filter(pred) == rest.filter(pred));
        assert(out.filter(pred) == head.filter(pred) + tail.filter(pred));
        assert(next.filter(pred) == head.filter(pred) + seq![x].filter(pred) + tail.filter(pred));
        if pred(x) {
            assert forall|i: int| 0 <= i < head.len() implies !pred(head[i]) by {
                assert(head[i] == out[i]);
                assert(outranks(out[i], x));
            }
            lemma_filter_none(head, pred);
            assert(head.filter(pred) + seq![x] + tail.filter(pred) =~= seq![x] + (head.filter(pred)
                + tail.filter(pred)));
        } else {
            assert(head.filter(pred) + Seq::<DiskItem>::empty() + tail.filter(pred)
                =~= head.filter(pred) + tail.filter(pred));
            assert(Seq::<DiskItem>::empty() + rest.filter(pred) =~= rest.filter(pred));
        }
    }
}

/// In a ranking no item stands before one that weighs more, and of two items
/// of one weight the smaller never stands first.
pub proof fn lemma_ranked_order(items: Seq<DiskItem>, i: int, j: int)
    requires
        is_ranked(items),
        0 <= i < j < items.len(),
    ensures
        weight_of(items[i]) >= weight_of(items[j]),
        weight_of(items[i]) == weight_of(items[j]) ==> items[i].size >= items[j].size,
{
    assert(!outranks(items[j], items[i]));
}

/// A ranking holds just the items of the list that was ranked.
pub proof fn lemma_ranking_keeps_items(output: Seq<DiskItem>, input: Seq<DiskItem>, item: DiskItem)
    requires
        is_ranking_of(output, input),
    ensures
        output.contains(item) <==> input.contains(item),
{
    broadcast use vstd::seq_lib::group_filter_ensures;

    let same = of_rank(weight_of(item), item.size);
    assert(output.filter(same) == input.filter(same));
    if output.contains(item) {
        let i = choose|i: int| 0 <= i < output.len() && output[i] == item;
        assert(same(output[i]));
        assert(output.filter(same).contains(output[i]));
        let k = choose|k: int| 0 <= k < input.filter(same).len() && input.filter(same)[k] == item;
        lemma_filtered_came_from(input, same, k);
    }
    if input.contains(item) {
        let i = choose|i: int| 0 <= i < input.len() && input[i] == item;
        assert(same(input[i]));
        assert(input.filter(same).contains(input[i]));
        let k = choose|k: int| 0 <= k < output.filter(same).len() && output.filter(same)[k] == item;
        lemma_filtered_came_from(output, same, k);
    }
}

proof fn lemma_filtered_came_from<A>(s: Seq<A>, pred: spec_fn(A) -> bool, k: int)
    requires
        0 <= k < s.filter(pred).len(),
    ensures
        s.contains(s.filter(pred)[k]),
    decreases s.len(),
{
    reveal(Seq::filter);
    if s.len() > 0 {
        let front = s.drop_last();
        if k < front.filter(pred).len() {
            lemma_filtered_came_from(front, pred, k);
            let i = choose|i: int| 0 <= i < front.len() && front[i] == front.filter(pred)[k];
            assert(s[i] == front[i]);
        } else {
            assert(s[s.len() - 1] == s.last());
        }
    }
}

/// The rank of `item`: the items that `of_rank` holds of with it.
pub open spec fn rank_of(item: DiskItem) -> spec_fn(DiskItem) -> bool {
    of_rank(weight_of(item), item.size)
}

proof fn lemma_filter_last<A>(s: Seq<A>, pred: spec_fn(A) -> bool)
    requires
        s.len() > 0,
    ensures
        pred(s.last()) ==> s.filter(pred) == s.drop_last().filter(pred).push(s.last()),
        !pred(s.last()) ==> s.filter(pred) == s.drop_last().filter(pred),
{
    reveal(Seq::filter);
}

/// A list has one ranking: two ranked lists that hold, for each weight and
/// size, the same items in the same order are one list.
pub proof fn lemma_ranking_is_unique(first: Seq<DiskItem>, second: Seq<DiskItem>)
    requires
        is_ranked(first),
        is_ranked(second),
        forall|weight: u32, size: u64| #[trigger]
            first.filter(of_rank(weight, size)) == second.filter(of_rank(weight, size)),
    ensures
        first == second,
    decreases first.len() + second.len(),
{
    if first.len() == 0 || second.len() == 0 {
        if first.len() > 0 {
            let same = rank_of(first.last());
            lemma_filter_last(first, same);
            lemma_filter_none(second, same);
            assert(first.filter(same) == second.filter(same));
        }
        if second.len() > 0 {
            let same = rank_of(second.last());
            lemma_filter_last(second, same);
            lemma_filter_none(first, same);
            assert(first.filter(same) == second.filter(same));
        }
        assert(first =~= second);
    } else {
        let a = first.last();
        let b = second.last();
        assert(first[first.len() - 1] == a && second[second.len() - 1] == b);
        // Each last item is in the other list, so neither outranks the other.
        lemma_filter_last(first, rank_of(a));
        assert(first.filter(rank_of(a)) == second.filter(rank_of(a)));
        let in_second = second.filter(rank_of(a));
        assert(in_second.last() == a);
        lemma_filtered_came_from(second, rank_of(a), in_second.len() - 1);
        let at_b = choose|i: int| 0 <= i < second.len() && second[i] == a;
        assert(!outranks(second[second.len() - 1], second[at_b]) || at_b == second.len() - 1);
        lemma_filter_last(second, rank_of(b));
        assert(first.filter(rank_of(b)) == second.filter(rank_of(b)));
        let in_first = first.filter(rank_of(b));
        assert(in_first.last() == b);
        lemma_filtered_came_from(first, rank_of(b), in_first.len() - 1);
        let at_a = choose|i: int| 0 <= i < first.len() && first[i] == b;
        assert(!outranks(first[first.len() - 1], first[at_a]) || at_a == first.len() - 1);
        assert(weight_of(a) == weight_of(b) && a.size == b.size);
        assert(rank_of(a) == rank_of(b));
        assert(a == b);
        let front = first.drop_last();
        let other = second.drop_last();
        assert forall|i: int, j: int| 0 <= i < j < front.len() implies !outranks(
            #[trigger] front[j],
            #[trigger] front[i],
        ) by {
            assert(front[i] == first[i] && front[j] == first[j]);
        }
        assert forall|i: int, j: int| 0 <= i < j < other.len() implies !outranks(
            #[trigger] other[j],
            #[trigger] other[i],
        ) by {
            assert(other[i] == second[i] && other[j] == second[j]);
        }
        assert forall|weight: u32, size: u64| #[trigger]
            front.filter(of_rank(weight, size)) == other.filter(of_rank(weight, size)) by {
            let pred = of_rank(weight, size);
            lemma_filter_last(first, pred);
            lemma_filter_last(second, pred);
            assert(first.filter(pred) == second.filter(pred));
            if pred(a) {
                assert(front.filter(pred).push(a).drop_last() =~= front.filter(pred));
                assert(other.filter(pred).push(a).drop_last() =~= other.filter(pred));
            }
        }
        lemma_ranking_is_unique(front, other);
        assert(first =~= front.push(a));
        assert(second =~= other.push(b));
    }
}

/// The items of `items` in ranking order: heavier weights first, larger
/// sizes first among equal weights, and items of equal weight and size in the
/// order in which they came.
pub fn rank(items: Vec<DiskItem>) -> (ranked: Vec<DiskItem>)
    ensures
        is_ranking_of(ranked@, items@),
        ranked@.len() == items@.len(),
{
    let ghost input = items@;
    let mut rest = items;
    let mut out: Vec<DiskItem> = Vec::new();
    let mut weights: Vec<u32> = Vec::new();
    proof {
        assert(input.subrange(input.len() as int, input.len() as int) =~= Seq::<DiskItem>::empty());
    }
    while rest.len() > 0
        invariant
            rest@ == input.subrange(0, rest@.len() as int),
            rest@.len() <= input.len(),
            is_ranking_of(out@, input.subrange(rest@.len() as int, input.len() as int)),
            out@.len() + rest@.len() == input.len(),
            weights@.len() == out@.len(),
            forall|i: int| 0 <= i < out@.len() ==> weights@[i] == weight_of(#[trigger] out@[i]),
        decreases rest.len(),
    {
        let ghost before = rest@;
        let ghost done = input.subrange(before.len() as int, input.len() as int);
        let x = rest.pop().unwrap();
        let w = priority(x.path.as_str());
        let mut at: usize = 0;
        while at < out.len() && (weights[at] > w || (weights[at] == w && out[at].size > x.size))
            invariant
                at <= out.len(),
                weights@.len() == out@.len(),
                w == weight_of(x),
                forall|i: int| 0 <= i < out@.len() ==> weights@[i] == weight_of(#[trigger] out@[i]),
                forall|i: int| 0 <= i < at ==> outranks(#[trigger] out@[i], x),
            decreases out.len() - at,
        {
            at += 1;
        }
        proof {
            lemma_insert_ranks(out@, done, x, at as int);
            assert(seq![x] + done =~= input.subrange(rest@.len() as int, input.len() as int));
            assert(rest@ =~= input.subrange(0, rest@.len() as int));
        }
        let ghost old_out = out@;
        let ghost old_weights = weights@;
        out.insert(at, x);
        weights.insert(at, w);
        proof {
            assert forall|i: int| 0 <= i < out@.len() implies weights@[i] == weight_of(
                #[trigger] out@[i],
            ) by {
                if i < at {
                    assert(out@[i] == old_out[i] && weights@[i] == old_weights[i]);
                } else if i > at {
                    assert(out@[i] == old_out[i - 1] && weights@[i] == old_weights[i - 1]);
                }
            }
        }
    }
    proof {
        assert(input.subrange(0, input.len() as int) =~= input);
    }
    out
}

} // verus!
