//! Latest-per-source merging of normalized summaries.
//!
//! The merger keeps one slot per upstream source. On every update it stores
//! the incoming summary in the owning slot, concatenates all slots' levels,
//! re-sorts each side under a total order (price first, then amount
//! descending, so ties are deterministic), recomputes the spread from the
//! post-sort best levels, and caps both sides at ten entries.

use vstd::prelude::*;

use crate::book::{Exchange, Level, Summary, SummaryView, MAX_DEPTH};

verus! {

/// Strict "must stand earlier" order for one side. Ascending by price for
/// asks (`asc`), descending for bids; equal prices are broken by larger
/// amount first. Levels equal in price and amount are tied: neither comes
/// strictly before the other, and a stable sort keeps their input order.
pub open spec fn level_before(asc: bool, a: Level, b: Level) -> bool {
    if a.price == b.price {
        a.amount > b.amount
    } else if asc {
        a.price < b.price
    } else {
        a.price > b.price
    }
}

/// `a` may stand (weakly) ahead of `b` on a side.
pub open spec fn level_ordered(asc: bool, a: Level, b: Level) -> bool {
    !level_before(asc, b, a)
}

/// One side is sorted: every level may stand ahead of its successor.
pub open spec fn sorted_side(asc: bool, s: Seq<Level>) -> bool {
    forall|i: int| 0 <= i && i + 1 < s.len() ==> #[trigger] level_ordered(asc, s[i], s[i + 1])
}

/// Stable insertion of `x` into `s`: `x` goes in front of the first level it
/// strictly precedes, hence after any level it ties with.
pub open spec fn insert_level(asc: bool, x: Level, s: Seq<Level>) -> Seq<Level>
    decreases s.len(),
{
    if s.len() == 0 {
        seq![x]
    } else if level_before(asc, x, s[0]) {
        seq![x] + s
    } else {
        seq![s[0]] + insert_level(asc, x, s.drop_first())
    }
}

/// Stable insertion sort of one side.
pub open spec fn sort_levels(asc: bool, s: Seq<Level>) -> Seq<Level>
    decreases s.len(),
{
    if s.len() == 0 {
        Seq::empty()
    } else {
        insert_level(asc, s.last(), sort_levels(asc, s.drop_last()))
    }
}

pub proof fn lemma_insert_level_len(asc: bool, x: Level, s: Seq<Level>)
    ensures
        insert_level(asc, x, s).len() == s.len() + 1,
    decreases s.len(),
{
    if s.len() > 0 && !level_before(asc, x, s[0]) {
        lemma_insert_level_len(asc, x, s.drop_first());
    }
}

pub proof fn lemma_sort_levels_len(asc: bool, s: Seq<Level>)
    ensures
        sort_levels(asc, s).len() == s.len(),
    decreases s.len(),
{
    if s.len() > 0 {
        lemma_sort_levels_len(asc, s.drop_last());
        lemma_insert_level_len(asc, s.last(), sort_levels(asc, s.drop_last()));
    }
}

/// Inserting into a sorted side keeps it sorted.
pub proof fn lemma_insert_level_sorted(asc: bool, x: Level, s: Seq<Level>)
    requires
        sorted_side(asc, s),
    ensures
        sorted_side(asc, insert_level(asc, x, s)),
    decreases s.len(),
{
    if s.len() == 0 {
    } else if level_before(asc, x, s[0]) {
        let r = seq![x] + s;
        assert forall|i: int| 0 <= i && i + 1 < r.len() implies #[trigger] level_ordered(
            asc,
            r[i],
            r[i + 1],
        ) by {
            if i == 0 {
                assert(r[0] == x && r[1] == s[0]);
                assert(!level_before(asc, s[0], x));
            } else {
                let k = i - 1;
                assert(0 <= k && k + 1 < s.len());
                assert(level_ordered(asc, s[k], s[k + 1]));
                assert(r[i] == s[k] && r[i + 1] == s[k + 1]);
            }
        }
    } else {
        let rest = s.drop_first();
        assert(sorted_side(asc, rest)) by {
            assert forall|i: int| 0 <= i && i + 1 < rest.len() implies #[trigger] level_ordered(
                asc,
                rest[i],
                rest[i + 1],
            ) by {
                assert(rest[i] == s[i + 1] && rest[i + 1] == s[i + 2]);
            }
        }
        lemma_insert_level_sorted(asc, x, rest);
        lemma_insert_level_len(asc, x, rest);
        let t = insert_level(asc, x, rest);
        let r = seq![s[0]] + t;
        // The head of `t` is either `x` itself or the old second level;
        // the old head may stand ahead of both.
        assert(t[0] == x || (rest.len() > 0 && t[0] == rest[0]));
        assert forall|i: int| 0 <= i && i + 1 < r.len() implies #[trigger] level_ordered(
            asc,
            r[i],
            r[i + 1],
        ) by {
            if i == 0 {
                assert(r[0] == s[0] && r[1] == t[0]);
                if t[0] == x {
                    assert(level_ordered(asc, s[0], x));
                } else {
                    assert(rest.len() > 0 && t[0] == rest[0] && rest[0] == s[1]);
                    assert(level_ordered(asc, s[0], s[1]));
                }
            } else {
                let k = i - 1;
                assert(0 <= k && k + 1 < t.len());
                assert(level_ordered(asc, t[k], t[k + 1]));
                assert(r[i] == t[k] && r[i + 1] == t[k + 1]);
            }
        }
    }
}

pub proof fn lemma_sort_levels_sorted(asc: bool, s: Seq<Level>)
    ensures
        sorted_side(asc, sort_levels(asc, s)),
    decreases s.len(),
{
    if s.len() > 0 {
        lemma_sort_levels_sorted(asc, s.drop_last());
        lemma_insert_level_sorted(asc, s.last(), sort_levels(asc, s.drop_last()));
    }
}

/// Insertion puts `x` at the first position whose level `x` strictly
/// precedes; nothing else moves.
pub proof fn lemma_insert_level_at(asc: bool, x: Level, s: Seq<Level>, j: int)
    requires
        0 <= j <= s.len(),
        forall|k: int| 0 <= k < j ==> !level_before(asc, x, s[k]),
        j < s.len() ==> level_before(asc, x, s[j]),
    ensures
        insert_level(asc, x, s) == s.insert(j, x),
    decreases j,
{
    if j == 0 {
        if s.len() == 0 {
            assert(insert_level(asc, x, s) =~= s.insert(0, x));
        } else {
            assert(insert_level(asc, x, s) == seq![x] + s);
            assert(seq![x] + s =~= s.insert(0, x));
        }
    } else {
        let rest = s.drop_first();
        lemma_insert_level_at(asc, x, rest, j - 1);
        assert(seq![s[0]] + rest.insert(j - 1, x) =~= s.insert(j, x));
    }
}

/// Insertion adds exactly `x` to the side's contents.
pub proof fn lemma_insert_level_multiset(asc: bool, x: Level, s: Seq<Level>)
    ensures
        insert_level(asc, x, s).to_multiset() == s.to_multiset().insert(x),
    decreases s.len(),
{
    broadcast use vstd::multiset::group_multiset_axioms;

    if s.len() == 0 {
        assert(s =~= Seq::<Level>::empty());
        assert(seq![x] =~= s.insert(0, x));
        vstd::seq_lib::to_multiset_insert(s, 0, x);
    } else if level_before(asc, x, s[0]) {
        assert(seq![x] + s =~= s.insert(0, x));
        vstd::seq_lib::to_multiset_insert(s, 0, x);
    } else {
        let rest = s.drop_first();
        lemma_insert_level_multiset(asc, x, rest);
        let t = insert_level(asc, x, rest);
        assert(seq![s[0]] + t =~= t.insert(0, s[0]));
        vstd::seq_lib::to_multiset_insert(t, 0, s[0]);
        assert(s =~= rest.insert(0, s[0]));
        vstd::seq_lib::to_multiset_insert(rest, 0, s[0]);
        assert(rest.to_multiset().insert(x).insert(s[0]) =~= rest.to_multiset().insert(
            s[0],
        ).insert(x));
    }
}

/// Sorting permutes the side: same levels, same multiplicities.
pub proof fn lemma_sort_levels_multiset(asc: bool, s: Seq<Level>)
    ensures
        sort_levels(asc, s).to_multiset() == s.to_multiset(),
    decreases s.len(),
{
    broadcast use vstd::multiset::group_multiset_axioms;

    if s.len() > 0 {
        lemma_sort_levels_multiset(asc, s.drop_last());
        lemma_insert_level_multiset(asc, s.last(), sort_levels(asc, s.drop_last()));
        assert(sort_levels(asc, s).to_multiset() == s.drop_last().to_multiset().insert(s.last()));
        assert(s =~= s.drop_last().insert(s.len() - 1, s.last()));
        vstd::seq_lib::to_multiset_insert(s.drop_last(), s.len() - 1, s.last());
        assert(s.to_multiset() == s.drop_last().to_multiset().insert(s.last()));
    } else {
        assert(sort_levels(asc, s) =~= s);
    }
}

fn level_before_exec(asc: bool, a: &Level, b: &Level) -> (r: bool)
    ensures
        r == level_before(asc, *a, *b),
{
    if a.price == b.price {
        a.amount > b.amount
    } else if asc {
        a.price < b.price
    } else {
        a.price > b.price
    }
}

/// First position in the sorted side `v` whose level `x` strictly precedes.
fn find_insert_pos(asc: bool, v: &Vec<Level>, x: &Level) -> (j: usize)
    ensures
        0 <= j <= v@.len(),
        forall|k: int| 0 <= k < j ==> !level_before(asc, *x, v@[k]),
        j < v@.len() ==> level_before(asc, *x, v@[j as int]),
{
    let mut j: usize = 0;
    while j < v.len()
        invariant
            0 <= j <= v@.len(),
            forall|k: int| 0 <= k < j ==> !level_before(asc, *x, v@[k]),
        decreases v@.len() - j,
    {
        if level_before_exec(asc, x, &v[j]) {
            return j;
        }
        j = j + 1;
    }
    j
}

/// Stable insertion sort of one side's levels.
fn sort_levels_exec(asc: bool, v: &Vec<Level>) -> (r: Vec<Level>)
    ensures
        r@ == sort_levels(asc, v@),
{
    let mut r: Vec<Level> = Vec::new();
    proof {
        assert(v@.take(0) =~= Seq::<Level>::empty());
        assert(r@ =~= sort_levels(asc, v@.take(0)));
    }
    let mut i: usize = 0;
    while i < v.len()
        invariant
            0 <= i <= v@.len(),
            r@ == sort_levels(asc, v@.take(i as int)),
        decreases v@.len() - i,
    {
        let x = v[i];
        let j = find_insert_pos(asc, &r, &x);
        proof {
            lemma_insert_level_at(asc, x, r@, j as int);
            assert(v@.take(i as int + 1).drop_last() =~= v@.take(i as int));
            assert(v@.take(i as int + 1).last() == v@[i as int]);
        }
        r.insert(j, x);
        i = i + 1;
    }
    proof {
        assert(v@.take(v@.len() as int) =~= v@);
    }
    r
}

/// All bids of all slots, in slot order then venue order.
pub open spec fn concat_bids(slots: Seq<SummaryView>) -> Seq<Level>
    decreases slots.len(),
{
    if slots.len() == 0 {
        Seq::empty()
    } else {
        concat_bids(slots.drop_last()) + slots.last().bids
    }
}

/// All asks of all slots, in slot order then venue order.
pub open spec fn concat_asks(slots: Seq<SummaryView>) -> Seq<Level>
    decreases slots.len(),
{
    if slots.len() == 0 {
        Seq::empty()
    } else {
        concat_asks(slots.drop_last()) + slots.last().asks
    }
}

/// The retained top of one sorted side: at most ten levels.
pub open spec fn take_depth(s: Seq<Level>) -> Seq<Level> {
    if s.len() <= MAX_DEPTH {
        s
    } else {
        s.take(MAX_DEPTH as int)
    }
}

/// The merged snapshot of a set of slots: concatenate, re-sort each side,
/// read the spread off the best post-sort levels, then cap the depth.
pub open spec fn spec_merge(slots: Seq<SummaryView>) -> SummaryView {
    let sb = sort_levels(false, concat_bids(slots));
    let sa = sort_levels(true, concat_asks(slots));
    SummaryView {
        spread: if sb.len() > 0 && sa.len() > 0 {
            sa[0].price - sb[0].price
        } else {
            0
        },
        bids: take_depth(sb),
        asks: take_depth(sa),
    }
}

/// Views of a vector of summaries, slot by slot.
pub open spec fn views_of(s: Seq<Summary>) -> Seq<SummaryView> {
    s.map_values(|x: Summary| x@)
}

/// Merges the given slot summaries into one capped, sorted snapshot.
pub fn merge_summaries(sums: &Vec<Summary>) -> (r: Summary)
    ensures
        r@ == spec_merge(views_of(sums@)),
        r@.bids.len() <= MAX_DEPTH,
        r@.asks.len() <= MAX_DEPTH,
        sorted_side(false, r@.bids),
        sorted_side(true, r@.asks),
        r@.bids.len() > 0 && r@.asks.len() > 0 ==> r@.spread == r@.asks[0].price
            - r@.bids[0].price,
{
    let ghost slots = views_of(sums@);
    let mut all_bids: Vec<Level> = Vec::new();
    let mut all_asks: Vec<Level> = Vec::new();
    proof {
        assert(slots.take(0) =~= Seq::<SummaryView>::empty());
        assert(all_bids@ =~= concat_bids(slots.take(0)));
        assert(all_asks@ =~= concat_asks(slots.take(0)));
    }
    let mut i: usize = 0;
    while i < sums.len()
        invariant
            0 <= i <= sums@.len(),
            slots == views_of(sums@),
            slots.len() == sums@.len(),
            all_bids@ == concat_bids(slots.take(i as int)),
            all_asks@ == concat_asks(slots.take(i as int)),
        decreases sums@.len() - i,
    {
        let ghost bids_before = all_bids@;
        let ghost asks_before = all_asks@;
        let n_bids = sums[i].bids.len();
        let mut j: usize = 0;
        while j < n_bids
            invariant
                0 <= i < sums@.len(),
                slots == views_of(sums@),
                slots.len() == sums@.len(),
                n_bids == sums@[i as int].bids@.len(),
                0 <= j <= n_bids,
                bids_before == concat_bids(slots.take(i as int)),
                all_bids@ == bids_before + sums@[i as int].bids@.take(j as int),
            decreases n_bids - j,
        {
            all_bids.push(sums[i].bids[j]);
            proof {
                assert(sums@[i as int].bids@.take(j as int + 1) =~= sums@[i as int].bids@.take(
                    j as int,
                ).push(sums@[i as int].bids@[j as int]));
                assert(all_bids@ =~= bids_before + sums@[i as int].bids@.take(j as int + 1));
            }
            j = j + 1;
        }
        let n_asks = sums[i].asks.len();
        let mut j2: usize = 0;
        while j2 < n_asks
            invariant
                0 <= i < sums@.len(),
                slots == views_of(sums@),
                slots.len() == sums@.len(),
                n_asks == sums@[i as int].asks@.len(),
                0 <= j2 <= n_asks,
                asks_before == concat_asks(slots.take(i as int)),
                all_asks@ == asks_before + sums@[i as int].asks@.take(j2 as int),
            decreases n_asks - j2,
        {
            all_asks.push(sums[i].asks[j2]);
            proof {
                assert(sums@[i as int].asks@.take(j2 as int + 1) =~= sums@[i as int].asks@.take(
                    j2 as int,
                ).push(sums@[i as int].asks@[j2 as int]));
                assert(all_asks@ =~= asks_before + sums@[i as int].asks@.take(j2 as int + 1));
            }
            j2 = j2 + 1;
        }
        proof {
            assert(slots.take(i as int + 1).drop_last() =~= slots.take(i as int));
            assert(slots.take(i as int + 1).last() == slots[i as int]);
            assert(slots[i as int].bids == sums@[i as int].bids@);
            assert(slots[i as int].asks == sums@[i as int].asks@);
            assert(sums@[i as int].bids@.take(sums@[i as int].bids@.len() as int) =~= sums@[
                i as int
            ].bids@);
            assert(sums@[i as int].asks@.take(sums@[i as int].asks@.len() as int) =~= sums@[
                i as int
            ].asks@);
        }
        i = i + 1;
    }
    proof {
        assert(slots.take(slots.len() as int) =~= slots);
    }
    let mut sb = sort_levels_exec(false, &all_bids);
    let mut sa = sort_levels_exec(true, &all_asks);
    proof {
        lemma_sort_levels_sorted(false, all_bids@);
        lemma_sort_levels_sorted(true, all_asks@);
    }
    let spread: i128 = if sb.len() > 0 && sa.len() > 0 {
        sa[0].price as i128 - sb[0].price as i128
    } else {
        0
    };
    let ghost sb_full = sb@;
    let ghost sa_full = sa@;
    sb.truncate(MAX_DEPTH);
    sa.truncate(MAX_DEPTH);
    proof {
        if sb_full.len() <= MAX_DEPTH {
            assert(sb@ =~= sb_full);
        } else {
            assert(sb@ =~= sb_full.take(MAX_DEPTH as int));
        }
        if sa_full.len() <= MAX_DEPTH {
            assert(sa@ =~= sa_full);
        } else {
            assert(sa@ =~= sa_full.take(MAX_DEPTH as int));
        }
        assert(sb@ == take_depth(sb_full));
        assert(sa@ == take_depth(sa_full));
    }
    let r = Summary { spread, bids: sb, asks: sa };
    proof {
        assert(r@ =~= spec_merge(slots));
    }
    r
}


/// Venues contributing at least one level to a side.
pub open spec fn exchanges_of_side(s: Seq<Level>) -> Set<Exchange> {
    Set::new(|e: Exchange| exists|i: int| 0 <= i < s.len() && s[i].exchange == e)
}

/// Venues contributing at least one level to a snapshot.
pub open spec fn exchanges_of(v: SummaryView) -> Set<Exchange> {
    exchanges_of_side(v.bids).union(exchanges_of_side(v.asks))
}

/// Venues contributing at least one level to any slot. A source that has
/// not delivered yet holds the empty summary and contributes nothing.
pub open spec fn slots_exchanges(slots: Seq<SummaryView>) -> Set<Exchange>
    decreases slots.len(),
{
    if slots.len() == 0 {
        Set::empty()
    } else {
        slots_exchanges(slots.drop_last()).union(exchanges_of(slots.last()))
    }
}

proof fn lemma_exchanges_side_concat(a: Seq<Level>, b: Seq<Level>)
    ensures
        exchanges_of_side(a + b) == exchanges_of_side(a).union(exchanges_of_side(b)),
{
    let l = exchanges_of_side(a + b);
    let r = exchanges_of_side(a).union(exchanges_of_side(b));
    assert forall|e: Exchange| l.contains(e) implies r.contains(e) by {
        let i = choose|i: int| 0 <= i < (a + b).len() && (a + b)[i].exchange == e;
        if i < a.len() {
            assert(a[i].exchange == e);
        } else {
            assert(b[i - a.len()].exchange == e);
        }
    }
    assert forall|e: Exchange| r.contains(e) implies l.contains(e) by {
        if exchanges_of_side(a).contains(e) {
            let i = choose|i: int| 0 <= i < a.len() && a[i].exchange == e;
            assert((a + b)[i].exchange == e);
        } else {
            let i = choose|i: int| 0 <= i < b.len() && b[i].exchange == e;
            assert((a + b)[a.len() + i].exchange == e);
        }
    }
    assert(l =~= r);
}

/// A permutation of a side draws on exactly the same venues.
proof fn lemma_exchanges_side_permutation(a: Seq<Level>, b: Seq<Level>)
    requires
        a.to_multiset() == b.to_multiset(),
    ensures
        exchanges_of_side(a) == exchanges_of_side(b),
{
    a.to_multiset_ensures();
    b.to_multiset_ensures();
    assert forall|e: Exchange| exchanges_of_side(a).contains(e) implies exchanges_of_side(
        b,
    ).contains(e) by {
        let i = choose|i: int| 0 <= i < a.len() && a[i].exchange == e;
        assert(a.contains(a[i]));
        assert(b.to_multiset().count(a[i]) > 0);
        assert(b.contains(a[i]));
        let j = choose|j: int| 0 <= j < b.len() && b[j] == a[i];
        assert(b[j].exchange == e);
    }
    assert forall|e: Exchange| exchanges_of_side(b).contains(e) implies exchanges_of_side(
        a,
    ).contains(e) by {
        let i = choose|i: int| 0 <= i < b.len() && b[i].exchange == e;
        assert(b.contains(b[i]));
        assert(a.to_multiset().count(b[i]) > 0);
        assert(a.contains(b[i]));
        let j = choose|j: int| 0 <= j < a.len() && a[j] == b[i];
        assert(a[j].exchange == e);
    }
    assert(exchanges_of_side(a) =~= exchanges_of_side(b));
}

/// The venues found across all slots are exactly those of the two
/// concatenated sides.
proof fn lemma_slots_exchanges_concat(slots: Seq<SummaryView>)
    ensures
        slots_exchanges(slots) == exchanges_of_side(concat_bids(slots)).union(
            exchanges_of_side(concat_asks(slots)),
        ),
    decreases slots.len(),
{
    if slots.len() == 0 {
        assert forall|e: Exchange|
            !exchanges_of_side(concat_bids(slots)).union(
                exchanges_of_side(concat_asks(slots)),
            ).contains(e) by {}
        assert(slots_exchanges(slots) =~= exchanges_of_side(concat_bids(slots)).union(
            exchanges_of_side(concat_asks(slots)),
        ));
    } else {
        lemma_slots_exchanges_concat(slots.drop_last());
        lemma_exchanges_side_concat(concat_bids(slots.drop_last()), slots.last().bids);
        lemma_exchanges_side_concat(concat_asks(slots.drop_last()), slots.last().asks);
        assert(slots_exchanges(slots) =~= exchanges_of_side(concat_bids(slots)).union(
            exchanges_of_side(concat_asks(slots)),
        ));
    }
}

/// Each merged side only draws on venues present in some slot.
pub proof fn lemma_merge_exchanges_subset(slots: Seq<SummaryView>)
    ensures
        exchanges_of(spec_merge(slots)).subset_of(slots_exchanges(slots)),
{
    let sb = sort_levels(false, concat_bids(slots));
    let sa = sort_levels(true, concat_asks(slots));
    lemma_sort_levels_multiset(false, concat_bids(slots));
    lemma_sort_levels_multiset(true, concat_asks(slots));
    lemma_exchanges_side_permutation(sb, concat_bids(slots));
    lemma_exchanges_side_permutation(sa, concat_asks(slots));
    lemma_slots_exchanges_concat(slots);
    assert forall|e: Exchange| exchanges_of_side(take_depth(sb)).contains(e)
        implies exchanges_of_side(sb).contains(e) by {
        let i = choose|i: int| 0 <= i < take_depth(sb).len() && take_depth(sb)[i].exchange == e;
        assert(sb[i].exchange == e);
    }
    assert forall|e: Exchange| exchanges_of_side(take_depth(sa)).contains(e)
        implies exchanges_of_side(sa).contains(e) by {
        let i = choose|i: int| 0 <= i < take_depth(sa).len() && take_depth(sa)[i].exchange == e;
        assert(sa[i].exchange == e);
    }
}

/// The venues appearing in the merged snapshot are exactly the venues whose
/// levels sit in some slot, as long as nothing is cut by the depth cap: a
/// venue all of whose levels rank below the top ten on both sides would
/// otherwise drop out of the merged view.
pub proof fn lemma_merge_exchange_sources(slots: Seq<SummaryView>)
    requires
        concat_bids(slots).len() <= MAX_DEPTH,
        concat_asks(slots).len() <= MAX_DEPTH,
    ensures
        exchanges_of(spec_merge(slots)) == slots_exchanges(slots),
{
    let sb = sort_levels(false, concat_bids(slots));
    let sa = sort_levels(true, concat_asks(slots));
    lemma_sort_levels_len(false, concat_bids(slots));
    lemma_sort_levels_len(true, concat_asks(slots));
    assert(take_depth(sb) == sb);
    assert(take_depth(sa) == sa);
    lemma_sort_levels_multiset(false, concat_bids(slots));
    lemma_sort_levels_multiset(true, concat_asks(slots));
    lemma_exchanges_side_permutation(sb, concat_bids(slots));
    lemma_exchanges_side_permutation(sa, concat_asks(slots));
    lemma_slots_exchanges_concat(slots);
    assert(exchanges_of(spec_merge(slots)) =~= slots_exchanges(slots));
}

/// Merging is idempotent: storing the same snapshot into the same slot a
/// second time changes neither the slots nor the merged, published summary,
/// so replaying identical per-source snapshots replays identical output.
pub proof fn lemma_merge_idempotent(slots: Seq<SummaryView>, idx: int, s: SummaryView)
    requires
        0 <= idx < slots.len(),
    ensures
        slots.update(idx, s).update(idx, s) == slots.update(idx, s),
        spec_merge(slots.update(idx, s).update(idx, s)) == spec_merge(slots.update(idx, s)),
{
    assert(slots.update(idx, s).update(idx, s) =~= slots.update(idx, s));
}

/// The arithmetic reading of a sorted side: adjacent prices are ordered the
/// side's way, and equal prices carry amounts in descending order.
pub open spec fn level_keys_ordered(asc: bool, a: Level, b: Level) -> bool {
    &&& if asc {
        a.price <= b.price
    } else {
        a.price >= b.price
    }
    &&& a.price == b.price ==> a.amount >= b.amount
}

/// What [`sorted_side`] says about raw prices and amounts.
pub proof fn lemma_sorted_side_keys(asc: bool, s: Seq<Level>)
    requires
        sorted_side(asc, s),
    ensures
        forall|i: int| 0 <= i && i + 1 < s.len() ==> #[trigger] level_keys_ordered(
            asc,
            s[i],
            s[i + 1],
        ),
{
    assert forall|i: int| 0 <= i && i + 1 < s.len() implies #[trigger] level_keys_ordered(
        asc,
        s[i],
        s[i + 1],
    ) by {
        assert(level_ordered(asc, s[i], s[i + 1]));
    }
}

/// The latest-value-per-source combiner: one slot per upstream source,
/// initially the empty summary.
#[derive(Debug)]
pub struct Top10SummaryMerger {
    pub slots: Vec<Summary>,
}

impl Top10SummaryMerger {
    /// A merger with `sources` empty slots.
    pub fn new(sources: usize) -> (m: Top10SummaryMerger)
        ensures
            m.slots@.len() == sources,
            forall|i: int| 0 <= i < sources ==> (#[trigger] m.slots@[i])@ == SummaryView::empty(),
    {
        let mut slots: Vec<Summary> = Vec::new();
        let mut i: usize = 0;
        while i < sources
            invariant
                0 <= i <= sources,
                slots@.len() == i,
                forall|k: int| 0 <= k < i ==> (#[trigger] slots@[k])@ == SummaryView::empty(),
            decreases sources - i,
        {
            slots.push(Summary::default());
            i = i + 1;
        }
        Top10SummaryMerger { slots }
    }

    /// Number of registered sources.
    pub fn sources(&self) -> (n: usize)
        ensures
            n == self.slots@.len(),
    {
        self.slots.len()
    }

    /// Stores `s` into the owning slot and returns the re-merged snapshot.
    /// Every slot write is paired with exactly this merge, so observers never
    /// see a stored update that is not reflected in the published stream.
    pub fn on_update(&mut self, idx: usize, s: Summary) -> (r: Summary)
        requires
            idx < old(self).slots@.len(),
        ensures
            final(self).slots@.len() == old(self).slots@.len(),
            views_of(final(self).slots@) == views_of(old(self).slots@).update(idx as int, s@),
            r@ == spec_merge(views_of(final(self).slots@)),
            r@.bids.len() <= MAX_DEPTH,
            r@.asks.len() <= MAX_DEPTH,
            sorted_side(false, r@.bids),
            sorted_side(true, r@.asks),
            r@.bids.len() > 0 && r@.asks.len() > 0 ==> r@.spread == r@.asks[0].price
                - r@.bids[0].price,
    {
        let ghost old_views = views_of(self.slots@);
        let ghost sv = s@;
        self.slots.set(idx, s);
        proof {
            assert(views_of(self.slots@) =~= old_views.update(idx as int, sv));
        }
        merge_summaries(&self.slots)
    }
}

} // verus!
