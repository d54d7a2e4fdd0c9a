//! Hot-path ranking: the heaviest paths first, each with its share of the
//! total gas.
use vstd::prelude::*;
use vstd::relations::{sorted_by, total_ordering};
use vstd::multiset::group_multiset_axioms;
use vstd::seq_lib::{group_to_multiset_ensures, lemma_sorted_unique};

use crate::aggregator::{stack_views, CollapsedStack};
use crate::hostio::cap;

verus! {

/// A ranked path with its share of the total gas.
#[derive(Debug, Clone)]
pub struct HotPath {
    /// Frame names joined by `;`.
    pub stack: String,
    /// Gas attributed to the path.
    pub gas: u64,
    /// Share of the total gas in hundredths of a percent (10000 is all of it),
    /// rounded down; 0 when the total is 0.
    pub percentage_hundredths: u64,
}

/// Lexicographic order of texts by character code.
pub open spec fn text_less(a: Seq<char>, b: Seq<char>) -> bool
    decreases a.len(),
{
    if a.len() == 0 {
        b.len() > 0
    } else if b.len() == 0 {
        false
    } else if a[0] != b[0] {
        a[0] < b[0]
    } else {
        text_less(a.drop_first(), b.drop_first())
    }
}

/// Ranking order: heavier first, then by path text ascending.
pub open spec fn ranks_before(a: (Seq<char>, u64), b: (Seq<char>, u64)) -> bool {
    a.1 > b.1 || (a.1 == b.1 && text_less(a.0, b.0))
}

/// Inserts `x` into ranked `s` ahead of the first entry it ranks before.
pub open spec fn insert_ranked(s: Seq<(Seq<char>, u64)>, x: (Seq<char>, u64)) -> Seq<
    (Seq<char>, u64),
>
    decreases s.len(),
{
    if s.len() == 0 {
        seq![x]
    } else if ranks_before(x, s[0]) {
        seq![x] + s
    } else {
        seq![s[0]] + insert_ranked(s.drop_first(), x)
    }
}

/// The paths in ranking order; entries that tie on both keys keep their order.
pub open spec fn rank_order(s: Seq<(Seq<char>, u64)>) -> Seq<(Seq<char>, u64)>
    decreases s.len(),
{
    if s.len() == 0 {
        Seq::empty()
    } else {
        insert_ranked(rank_order(s.drop_last()), s.last())
    }
}

/// gas / total * 10000, rounded down, capped at `u64::MAX`; 0 when total is 0.
pub open spec fn percentage_of(gas: u64, total: u64) -> u64 {
    if total == 0 {
        0
    } else {
        cap((gas as int * 10000) / total as int)
    }
}

/// Whether `a` comes before `b` in lexicographic character order.
pub fn text_precedes(a: &str, b: &str) -> (r: bool)
    ensures
        r == text_less(a@, b@),
{
    let n = a.unicode_len();
    let m = b.unicode_len();
    let mut k: usize = 0;
    assert(a@.skip(0) =~= a@);
    assert(b@.skip(0) =~= b@);
    while k < n && k < m
        invariant
            n == a@.len(),
            m == b@.len(),
            0 <= k <= n,
            k <= m,
            text_less(a@, b@) == text_less(a@.skip(k as int), b@.skip(k as int)),
        decreases n - k,
    {
        let x = a.get_char(k);
        let y = b.get_char(k);
        assert(a@.skip(k as int)[0] == x);
        assert(b@.skip(k as int)[0] == y);
        if x != y {
            return x < y;
        }
        assert(a@.skip(k as int).drop_first() =~= a@.skip(k + 1));
        assert(b@.skip(k as int).drop_first() =~= b@.skip(k + 1));
        k = k + 1;
    }
    k < m && k == n
}

/// Whether path `a` ranks before path `b`.
pub fn ranks_ahead(a: &CollapsedStack, b: &CollapsedStack) -> (r: bool)
    ensures
        r == ranks_before(a@, b@),
{
    a.weight > b.weight || (a.weight == b.weight && text_precedes(a.stack.as_str(), b.stack.as_str()))
}

proof fn lemma_insert_ranked_at(s: Seq<(Seq<char>, u64)>, x: (Seq<char>, u64), pos: int)
    requires
        0 <= pos <= s.len(),
        forall|j: int| 0 <= j < pos ==> !ranks_before(x, #[trigger] s[j]),
        pos < s.len() ==> ranks_before(x, s[pos]),
    ensures
        insert_ranked(s, x) == s.insert(pos, x),
    decreases s.len(),
{
    if s.len() == 0 {
        assert(s.insert(pos, x) =~= seq![x]);
    } else if pos == 0 {
        assert(s.insert(pos, x) =~= seq![x] + s);
    } else {
        assert(!ranks_before(x, s[0]));
        let t = s.drop_first();
        assert forall|j: int| 0 <= j < pos - 1 implies !ranks_before(x, #[trigger] t[j]) by {
            assert(t[j] == s[j + 1]);
        }
        if pos - 1 < t.len() {
            assert(t[pos - 1] == s[pos]);
        }
        lemma_insert_ranked_at(t, x, pos - 1);
        assert(seq![s[0]] + t.insert(pos - 1, x) =~= s.insert(pos, x));
    }
}

/// The paths in ranking order: heavier first, then by path text ascending.
pub fn rank_stacks(stacks: &[CollapsedStack]) -> (r: Vec<CollapsedStack>)
    ensures
        stack_views(r@) == rank_order(stack_views(stacks@)),
{
    let ghost views = stack_views(stacks@);
    let mut sorted: Vec<CollapsedStack> = Vec::new();
    let mut i: usize = 0;
    while i < stacks.len()
        invariant
            0 <= i <= stacks@.len(),
            views == stack_views(stacks@),
            stack_views(sorted@) == rank_order(views.take(i as int)),
        decreases stacks@.len() - i,
    {
        let ghost pre = views.take(i as int);
        assert(views.take(i + 1).drop_last() =~= pre);
        assert(views.take(i + 1).last() == stacks@[i as int]@);
        let x = &stacks[i];
        let mut pos: usize = 0;
        while pos < sorted.len() && !ranks_ahead(x, &sorted[pos])
            invariant
                0 <= pos <= sorted@.len(),
                forall|j: int| 0 <= j < pos ==> !ranks_before(x@, #[trigger] sorted@[j]@),
            decreases sorted@.len() - pos,
        {
            pos = pos + 1;
        }
        proof {
            let sv = stack_views(sorted@);
            assert forall|j: int| 0 <= j < pos implies !ranks_before(x@, #[trigger] sv[j]) by {
                assert(sv[j] == sorted@[j]@);
            }
            lemma_insert_ranked_at(sv, x@, pos as int);
        }
        let ghost before = sorted@;
        sorted.insert(pos, CollapsedStack::new(x.stack.clone(), x.weight));
        assert(stack_views(sorted@) =~= stack_views(before).insert(pos as int, x@));
        i = i + 1;
    }
    assert(views.take(stacks@.len() as int) =~= views);
    sorted
}

/// Ranks `stacks` and keeps the first `top_n`, each with its percentage of
/// `total_gas`.
pub fn calculate_hot_paths(stacks: &[CollapsedStack], total_gas: u64, top_n: usize) -> (r: Vec<
    HotPath,
>)
    ensures
        r@.len() == if top_n < stacks@.len() {
            top_n as int
        } else {
            stacks@.len() as int
        },
        forall|j: int|
            0 <= j < r@.len() ==> {
                &&& (#[trigger] r@[j]).stack@ == rank_order(stack_views(stacks@))[j].0
                &&& r@[j].gas == rank_order(stack_views(stacks@))[j].1
                &&& r@[j].percentage_hundredths == percentage_of(r@[j].gas, total_gas)
            },
{
    let ghost views = stack_views(stacks@);
    let sorted = rank_stacks(stacks);
    assert(stack_views(sorted@).len() == sorted@.len());
    let count = if top_n < sorted.len() {
        top_n
    } else {
        sorted.len()
    };
    proof {
        lemma_rank_order_len(views);
    }
    let mut r: Vec<HotPath> = Vec::new();
    let mut j: usize = 0;
    while j < count
        invariant
            0 <= j <= count,
            count <= sorted@.len(),
            stack_views(sorted@) == rank_order(views),
            r@.len() == j,
            forall|k: int|
                0 <= k < j ==> {
                    &&& (#[trigger] r@[k]).stack@ == rank_order(views)[k].0
                    &&& r@[k].gas == rank_order(views)[k].1
                    &&& r@[k].percentage_hundredths == percentage_of(r@[k].gas, total_gas)
                },
        decreases count - j,
    {
        let e = &sorted[j];
        assert(stack_views(sorted@)[j as int] == e@);
        let share = percentage(e.weight, total_gas);
        r.push(HotPath { stack: e.stack.clone(), gas: e.weight, percentage_hundredths: share });
        j = j + 1;
    }
    r
}

proof fn lemma_insert_ranked_len(s: Seq<(Seq<char>, u64)>, x: (Seq<char>, u64))
    ensures
        insert_ranked(s, x).len() == s.len() + 1,
    decreases s.len(),
{
    if s.len() > 0 && !ranks_before(x, s[0]) {
        lemma_insert_ranked_len(s.drop_first(), x);
    }
}

proof fn lemma_rank_order_len(s: Seq<(Seq<char>, u64)>)
    ensures
        rank_order(s).len() == s.len(),
    decreases s.len(),
{
    if s.len() > 0 {
        lemma_rank_order_len(s.drop_last());
        lemma_insert_ranked_len(rank_order(s.drop_last()), s.last());
    }
}

/// `gas` as hundredths of a percent of `total`.
pub fn percentage(gas: u64, total: u64) -> (r: u64)
    ensures
        r == percentage_of(gas, total),
{
    if total == 0 {
        return 0;
    }
    let scaled: u128 = gas as u128 * 10000u128;
    let q: u128 = scaled / total as u128;
    if q > u64::MAX as u128 {
        u64::MAX
    } else {
        q as u64
    }
}

// ---------------------------------------------------------------------------
// The ranking order is total, so the ranking depends on the paths alone
// ---------------------------------------------------------------------------

/// `a` ranks before `b` or is the same entry.
pub open spec fn ranks_at_or_before(a: (Seq<char>, u64), b: (Seq<char>, u64)) -> bool {
    a == b || ranks_before(a, b)
}

/// The ranking order as a relation.
pub open spec fn rank_leq() -> spec_fn((Seq<char>, u64), (Seq<char>, u64)) -> bool {
    |a: (Seq<char>, u64), b: (Seq<char>, u64)| ranks_at_or_before(a, b)
}

proof fn lemma_text_less_asymmetric(a: Seq<char>, b: Seq<char>)
    ensures
        !(text_less(a, b) && text_less(b, a)),
    decreases a.len(),
{
    if a.len() > 0 && b.len() > 0 && a[0] == b[0] {
        lemma_text_less_asymmetric(a.drop_first(), b.drop_first());
    }
}

proof fn lemma_text_less_transitive(a: Seq<char>, b: Seq<char>, c: Seq<char>)
    requires
        text_less(a, b),
        text_less(b, c),
    ensures
        text_less(a, c),
    decreases a.len(),
{
    if a.len() > 0 && b.len() > 0 && c.len() > 0 && a[0] == b[0] && b[0] == c[0] {
        lemma_text_less_transitive(a.drop_first(), b.drop_first(), c.drop_first());
    }
}

proof fn lemma_text_less_total(a: Seq<char>, b: Seq<char>)
    requires
        a != b,
    ensures
        text_less(a, b) || text_less(b, a),
    decreases a.len(),
{
    if a.len() > 0 && b.len() > 0 && a[0] == b[0] {
        if a.drop_first() == b.drop_first() {
            assert(a =~= seq![a[0]] + a.drop_first());
            assert(b =~= seq![b[0]] + b.drop_first());
            assert(a =~= b);
        } else {
            lemma_text_less_total(a.drop_first(), b.drop_first());
        }
    } else if a.len() == 0 && b.len() == 0 {
        assert(a =~= b);
    } else if a.len() > 0 && b.len() > 0 {
        assert(a[0] != b[0]);
    }
}

/// Ranking "at or before" is a total order on path entries.
pub proof fn lemma_ranking_is_total_order()
    ensures
        total_ordering(rank_leq()),
{
    let leq = rank_leq();
    assert forall|x: (Seq<char>, u64), y: (Seq<char>, u64)|
        #[trigger] leq(x, y) && #[trigger] leq(y, x) implies x == y by {
        lemma_text_less_asymmetric(x.0, y.0);
    }
    assert forall|x: (Seq<char>, u64), y: (Seq<char>, u64), z: (Seq<char>, u64)|
        #[trigger] leq(x, y) && #[trigger] leq(y, z) implies leq(x, z) by {
        if x != y && y != z {
            if x.1 == y.1 && y.1 == z.1 {
                lemma_text_less_transitive(x.0, y.0, z.0);
            }
        }
    }
    assert forall|x: (Seq<char>, u64), y: (Seq<char>, u64)|
        #[trigger] leq(x, y) || #[trigger] leq(y, x) by {
        if x != y && x.1 == y.1 {
            if x.0 == y.0 {
                assert(x == y);
            }
            lemma_text_less_total(x.0, y.0);
        }
    }
}

proof fn lemma_insert_ranked_multiset(s: Seq<(Seq<char>, u64)>, x: (Seq<char>, u64))
    ensures
        insert_ranked(s, x).to_multiset() =~= s.to_multiset().insert(x),
    decreases s.len(),
{
    broadcast use group_to_multiset_ensures, group_multiset_axioms;

    if s.len() > 0 {
        if ranks_before(x, s[0]) {
            let t = seq![x] + s;
            assert(t.remove(0) =~= s);
            assert(t[0] == x);
            assert(t.contains(x));
            assert(t.remove(0).to_multiset() =~= t.to_multiset().remove(x));
            assert(t.to_multiset().count(x) > 0);
            assert(t.to_multiset().remove(x).insert(x) =~= t.to_multiset());
            assert(insert_ranked(s, x) == t);
        } else {
            lemma_insert_ranked_multiset(s.drop_first(), x);
            let t = seq![s[0]] + insert_ranked(s.drop_first(), x);
            assert(t.remove(0) =~= insert_ranked(s.drop_first(), x));
            assert(s.remove(0) =~= s.drop_first());
            assert(t[0] == s[0] && t.contains(s[0]));
            assert(s.contains(s[0]));
            assert(t.remove(0).to_multiset() =~= t.to_multiset().remove(s[0]));
            assert(s.remove(0).to_multiset() =~= s.to_multiset().remove(s[0]));
            assert(t.to_multiset().count(s[0]) > 0);
            assert(s.to_multiset().count(s[0]) > 0);
            assert(t.to_multiset().remove(s[0]).insert(s[0]) =~= t.to_multiset());
            assert(s.to_multiset().remove(s[0]).insert(s[0]) =~= s.to_multiset());
            assert(insert_ranked(s, x) == t);
        }
    } else {
        assert(seq![x] =~= s.push(x));
    }
}

proof fn lemma_insert_ranked_sorted(s: Seq<(Seq<char>, u64)>, x: (Seq<char>, u64))
    requires
        sorted_by(s, rank_leq()),
    ensures
        sorted_by(insert_ranked(s, x), rank_leq()),
    decreases s.len(),
{
    broadcast use group_to_multiset_ensures;

    let leq = rank_leq();
    if s.len() == 0 {
    } else if ranks_before(x, s[0]) {
        lemma_ranking_is_total_order();
        let t = seq![x] + s;
        assert forall|i: int, j: int| 0 <= i < j < t.len() implies #[trigger] leq(t[i], t[j]) by {
            if i == 0 {
                assert(leq(x, s[0]));
                if j > 1 {
                    assert(leq(s[0], s[j - 1]));
                }
            } else {
                assert(leq(s[i - 1], s[j - 1]));
            }
        }
    } else {
        let rest = s.drop_first();
        assert(sorted_by(rest, leq)) by {
            assert forall|i: int, j: int| 0 <= i < j < rest.len() implies #[trigger] leq(rest[i], rest[j]) by {
                assert(leq(s[i + 1], s[j + 1]));
            }
        }
        lemma_insert_ranked_sorted(rest, x);
        lemma_insert_ranked_multiset(rest, x);
        let u = insert_ranked(rest, x);
        let t = seq![s[0]] + u;
        if x != s[0] && x.1 == s[0].1 {
            lemma_text_less_total(x.0, s[0].0);
        }
        assert(leq(s[0], x));
        assert forall|i: int, j: int| 0 <= i < j < t.len() implies #[trigger] leq(t[i], t[j]) by {
            if i == 0 {
                let y = u[j - 1];
                assert(u.contains(y));
                assert(u.to_multiset().count(y) > 0);
                if y != x {
                    assert(rest.to_multiset().count(y) > 0);
                    assert(rest.contains(y));
                    let k = choose|k: int| 0 <= k < rest.len() && rest[k] == y;
                    assert(leq(s[0], s[k + 1]));
                }
            } else {
                assert(leq(u[i - 1], u[j - 1]));
            }
            lemma_ranking_is_total_order();
        }
    }
}

proof fn lemma_rank_order_sorted_permutation(s: Seq<(Seq<char>, u64)>)
    ensures
        sorted_by(rank_order(s), rank_leq()),
        rank_order(s).to_multiset() =~= s.to_multiset(),
    decreases s.len(),
{
    broadcast use group_to_multiset_ensures;

    if s.len() > 0 {
        lemma_rank_order_sorted_permutation(s.drop_last());
        lemma_insert_ranked_sorted(rank_order(s.drop_last()), s.last());
        lemma_insert_ranked_multiset(rank_order(s.drop_last()), s.last());
        assert(s.drop_last().push(s.last()) =~= s);
    }
}

/// Ranking depends only on which entries there are, not on the order they
/// come in: two lists holding the same entries (as a multiset) rank alike.
/// In particular, ranking the same paths again gives the same order.
pub proof fn lemma_ranking_ignores_input_order(a: Seq<(Seq<char>, u64)>, b: Seq<(Seq<char>, u64)>)
    requires
        a.to_multiset() == b.to_multiset(),
    ensures
        rank_order(a) == rank_order(b),
{
    lemma_rank_order_sorted_permutation(a);
    lemma_rank_order_sorted_permutation(b);
    lemma_ranking_is_total_order();
    lemma_sorted_unique(
        rank_order(a),
        rank_order(b),
        rank_leq(),
    );
}

} // verus!
