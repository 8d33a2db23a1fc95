//! What holds of every path through the portals.
use vstd::prelude::*;

use crate::portal::{
    after_crossing, after_crossings, all_well_formed, arc_partner, arc_sum, destination,
    in_window, insert_by_time, lemma_sort_well_formed, lemma_within_well_formed, region_arc,
    sort_by_time, sphere_link, sphere_partner, upper_sheet, well_formed, within, Arc, Crossing,
    Passage,
    Region, SPHERE_COUNT,
};
use crate::worlds::{is_world, lemma_world_numbers_wrap, world_of};

verus! {

/// The crossings of `s` ordered by time.
pub open spec fn ordered_by_time(s: Seq<Crossing>) -> bool {
    forall|i: int, j: int| 0 <= i < j < s.len() ==> s[i].time <= s[j].time
}

/// The crossings of `s` at time `t`, in their order in `s`.
pub open spec fn at_time(s: Seq<Crossing>, t: u32) -> Seq<Crossing>
    decreases s.len(),
{
    if s.len() == 0 {
        s
    } else if s.last().time == t {
        at_time(s.drop_last(), t).push(s.last())
    } else {
        at_time(s.drop_last(), t)
    }
}

proof fn lemma_insert_bounded(s: Seq<Crossing>, c: Crossing, bound: u32)
    requires
        forall|i: int| 0 <= i < s.len() ==> (#[trigger] s[i]).time <= bound,
        c.time <= bound,
    ensures
        forall|i: int|
            0 <= i < insert_by_time(s, c).len() ==> (#[trigger] insert_by_time(s, c)[i]).time
                <= bound,
    decreases s.len(),
{
    if s.len() > 0 && s.last().time > c.time {
        let init = s.drop_last();
        assert forall|i: int| 0 <= i < init.len() implies (#[trigger] init[i]).time <= bound by {
            assert(init[i] == s[i]);
        }
        lemma_insert_bounded(init, c, bound);
    }
}

proof fn lemma_insert_ordered(s: Seq<Crossing>, c: Crossing)
    requires
        ordered_by_time(s),
    ensures
        ordered_by_time(insert_by_time(s, c)),
    decreases s.len(),
{
    if s.len() > 0 && s.last().time > c.time {
        let init = s.drop_last();
        let last = s.last();
        assert(ordered_by_time(init)) by {
            assert forall|i: int, j: int| 0 <= i < j < init.len() implies init[i].time
                <= init[j].time by {
                assert(init[i] == s[i] && init[j] == s[j]);
            }
        }
        lemma_insert_ordered(init, c);
        assert forall|i: int| 0 <= i < init.len() implies (#[trigger] init[i]).time
            <= last.time by {
            assert(init[i] == s[i]);
        }
        lemma_insert_bounded(init, c, last.time);
    }
}

/// The crossings come out ordered by time.
pub proof fn lemma_sort_orders(s: Seq<Crossing>)
    ensures
        ordered_by_time(sort_by_time(s)),
    decreases s.len(),
{
    if s.len() > 0 {
        lemma_sort_orders(s.drop_last());
        lemma_insert_ordered(sort_by_time(s.drop_last()), s.last());
    }
}

proof fn lemma_insert_multiset(s: Seq<Crossing>, c: Crossing)
    ensures
        insert_by_time(s, c).to_multiset() =~= s.to_multiset().insert(c),
    decreases s.len(),
{
    broadcast use vstd::seq_lib::group_seq_properties;

    if s.len() > 0 && s.last().time > c.time {
        let init = s.drop_last();
        lemma_insert_multiset(init, c);
        assert(init.push(s.last()) =~= s);
    }
}

/// Ordering keeps every crossing, as many times as it occurs, and adds none.
pub proof fn lemma_sort_permutes(s: Seq<Crossing>)
    ensures
        sort_by_time(s).to_multiset() =~= s.to_multiset(),
    decreases s.len(),
{
    broadcast use vstd::seq_lib::group_seq_properties;

    if s.len() > 0 {
        lemma_sort_permutes(s.drop_last());
        lemma_insert_multiset(sort_by_time(s.drop_last()), s.last());
        assert(s.drop_last().push(s.last()) =~= s);
    }
}

proof fn lemma_insert_at_time(s: Seq<Crossing>, c: Crossing, t: u32)
    ensures
        at_time(insert_by_time(s, c), t) == (if c.time == t {
            at_time(s, t).push(c)
        } else {
            at_time(s, t)
        }),
    decreases s.len(),
{
    if s.len() == 0 || s.last().time <= c.time {
        assert(s.push(c).drop_last() =~= s);
    } else {
        let init = s.drop_last();
        let r = insert_by_time(init, c);
        lemma_insert_at_time(init, c, t);
        assert(r.push(s.last()).drop_last() =~= r);
    }
}

/// Ordering is stable: the crossings at any one time keep their order.
pub proof fn lemma_sort_is_stable(s: Seq<Crossing>, t: u32)
    ensures
        at_time(sort_by_time(s), t) == at_time(s, t),
    decreases s.len(),
{
    if s.len() > 0 {
        lemma_sort_is_stable(s.drop_last(), t);
        lemma_insert_at_time(sort_by_time(s.drop_last()), s.last(), t);
    }
}

/// Every crossing kept lies strictly between the start and the end of the path.
pub proof fn lemma_within_window(s: Seq<Crossing>, limit: u32)
    ensures
        forall|i: int|
            0 <= i < within(s, limit).len() ==> in_window(#[trigger] within(s, limit)[i], limit),
    decreases s.len(),
{
    if s.len() > 0 {
        lemma_within_window(s.drop_last(), limit);
        let kept = within(s.drop_last(), limit);
        assert forall|i: int| 0 <= i < kept.len() implies #[trigger] kept.push(s.last())[i]
            == kept[i] by {}
    }
}

/// The three inequalities of a sector name the arc over it as the table of the
/// knot diagram does: outside the ring the sector where (2) holds and (1) does not
/// lies under A, the one where (1) holds and (3) does not under B, and the one
/// where (3) holds and (2) does not under C; inside the ring they lie under C, A
/// and B.
pub proof fn lemma_arc_table(r: Region)
    ensures
        !r.x_positive && r.left_of_rising ==> region_arc(r) == (if r.outside_ring {
            Arc::A
        } else {
            Arc::C
        }),
        r.x_positive && !r.left_of_falling ==> region_arc(r) == (if r.outside_ring {
            Arc::B
        } else {
            Arc::A
        }),
        r.left_of_falling && !r.left_of_rising ==> region_arc(r) == (if r.outside_ring {
            Arc::C
        } else {
            Arc::B
        }),
{
}

/// Passing under an arc always leads to another world, and passing under it
/// again leads back.
pub proof fn lemma_arc_switches(a: Arc, w: int)
    requires
        is_world(w),
    ensures
        is_world(arc_partner(a, w)),
        arc_partner(a, w) != w,
        arc_partner(a, arc_partner(a, w)) == w,
{
}

/// The two worlds an arc joins add up to its number modulo six: the world after
/// passing under it is its number minus the world before.
pub proof fn lemma_arc_partner_is_difference(a: Arc, w: int)
    requires
        is_world(w),
    ensures
        arc_partner(a, w) == world_of(arc_sum(a) - w),
{
}

/// Each spherical portal joins two different worlds; entering it leads from
/// either one to the other, leaves every other world as it is, and entering it
/// again leads back.
pub proof fn lemma_sphere_switches(i: int, w: int)
    requires
        0 <= i < SPHERE_COUNT,
        is_world(w),
    ensures
        is_world(sphere_link(i).0),
        is_world(sphere_link(i).1),
        sphere_link(i).0 != sphere_link(i).1,
        w == sphere_link(i).0 ==> sphere_partner(i, w) == sphere_link(i).1,
        w == sphere_link(i).1 ==> sphere_partner(i, w) == sphere_link(i).0,
        w != sphere_link(i).0 && w != sphere_link(i).1 ==> sphere_partner(i, w) == w,
        sphere_partner(i, sphere_partner(i, w)) == w,
{
}

/// A crossing leads from a world to a world, and crossing it again leads back.
pub proof fn lemma_crossing_undone(w: int, c: Crossing)
    requires
        is_world(w),
        well_formed(c),
    ensures
        is_world(after_crossing(w, c)),
        after_crossing(after_crossing(w, c), c) == w,
{
}

proof fn lemma_after_crossings_is_world(w: int, s: Seq<Crossing>)
    requires
        is_world(w),
        all_well_formed(s),
    ensures
        is_world(after_crossings(w, s)),
    decreases s.len(),
{
    if s.len() > 0 {
        assert forall|i: int| 0 <= i < s.drop_last().len() implies well_formed(
            #[trigger] s.drop_last()[i],
        ) by {
            assert(s.drop_last()[i] == s[i]);
        }
        lemma_after_crossings_is_world(w, s.drop_last());
        assert(well_formed(s[s.len() - 1]));
    }
}

proof fn lemma_after_append(w: int, a: Seq<Crossing>, b: Seq<Crossing>)
    ensures
        after_crossings(w, a + b) == after_crossings(after_crossings(w, a), b),
    decreases b.len(),
{
    if b.len() == 0 {
        assert(a + b =~= a);
    } else {
        lemma_after_append(w, a, b.drop_last());
        assert((a + b).drop_last() =~= a + b.drop_last());
    }
}

/// Going back through the same crossings in the reverse order leads back to the
/// world one started from.
pub proof fn lemma_return_trip(w: int, s: Seq<Crossing>)
    requires
        is_world(w),
        all_well_formed(s),
    ensures
        after_crossings(after_crossings(w, s), s.reverse()) == w,
    decreases s.len(),
{
    if s.len() == 0 {
        assert(s.reverse().len() == 0);
    } else {
        let init = s.drop_last();
        let last = s.last();
        assert(all_well_formed(init)) by {
            assert forall|i: int| 0 <= i < init.len() implies well_formed(#[trigger] init[i]) by {
                assert(init[i] == s[i]);
            }
        }
        assert(well_formed(s[s.len() - 1]));
        lemma_return_trip(w, init);
        lemma_after_crossings_is_world(w, init);
        let mid = after_crossings(w, init);
        lemma_crossing_undone(mid, last);
        assert(s.reverse() =~= seq![last] + init.reverse());
        let end = after_crossings(w, s);
        assert(end == after_crossing(mid, last));
        lemma_after_append(end, seq![last], init.reverse());
        assert(seq![last].drop_last() =~= Seq::<Crossing>::empty());
        assert(after_crossings(end, Seq::<Crossing>::empty()) == end);
        assert(after_crossings(end, seq![last]) == after_crossing(end, last));
        assert(after_crossing(end, last) == mid);
    }
}

/// A path ends in one of the six worlds.
pub proof fn lemma_destination_is_world(w: int, crossings: Seq<Crossing>, limit: u32)
    requires
        all_well_formed(crossings),
    ensures
        is_world(destination(w, crossings, limit)),
{
    lemma_within_well_formed(crossings, limit);
    lemma_sort_well_formed(within(crossings, limit));
    lemma_after_crossings_is_world(world_of(w), sort_by_time(within(crossings, limit)));
}


proof fn lemma_at_time_of_last(s: Seq<Crossing>)
    requires
        s.len() > 0,
    ensures
        at_time(s, s.last().time).len() > 0,
        at_time(s, s.last().time).last() == s.last(),
        at_time(s, s.last().time).drop_last() == at_time(s.drop_last(), s.last().time),
{
    let r = at_time(s.drop_last(), s.last().time);
    assert(r.push(s.last()).drop_last() =~= r);
}

proof fn lemma_at_time_found(s: Seq<Crossing>, t: u32)
    requires
        at_time(s, t).len() > 0,
    ensures
        exists|i: int| 0 <= i < s.len() && s[i].time == t,
    decreases s.len(),
{
    if s.last().time == t {
        assert(s[s.len() - 1].time == t);
    } else {
        lemma_at_time_found(s.drop_last(), t);
        let i = choose|i: int| 0 <= i < s.drop_last().len() && s.drop_last()[i].time == t;
        assert(s[i] == s.drop_last()[i]);
    }
}

proof fn lemma_ordered_drop_last(s: Seq<Crossing>)
    requires
        ordered_by_time(s),
        s.len() > 0,
    ensures
        ordered_by_time(s.drop_last()),
        forall|i: int| 0 <= i < s.len() ==> (#[trigger] s[i]).time <= s.last().time,
{
    assert forall|i: int, j: int| 0 <= i < j < s.drop_last().len() implies s.drop_last()[i].time
        <= s.drop_last()[j].time by {
        assert(s.drop_last()[i] == s[i] && s.drop_last()[j] == s[j]);
    }
    assert forall|i: int| 0 <= i < s.len() implies (#[trigger] s[i]).time <= s.last().time by {
        if i < s.len() - 1 {
            assert(s[i].time <= s[s.len() - 1].time);
        }
    }
}

/// Two sequences ordered by time that hold the same crossings at every time, in
/// the same order, are the same.
proof fn lemma_ordered_determined(s1: Seq<Crossing>, s2: Seq<Crossing>)
    requires
        ordered_by_time(s1),
        ordered_by_time(s2),
        forall|t: u32| #[trigger] at_time(s1, t) == at_time(s2, t),
    ensures
        s1 == s2,
    decreases s1.len() + s2.len(),
{
    if s1.len() == 0 && s2.len() == 0 {
        assert(s1 =~= s2);
    } else if s1.len() == 0 {
        lemma_at_time_of_last(s2);
        assert(at_time(s1, s2.last().time) == at_time(s2, s2.last().time));
    } else if s2.len() == 0 {
        lemma_at_time_of_last(s1);
        assert(at_time(s1, s1.last().time) == at_time(s2, s1.last().time));
    } else {
        let t1 = s1.last().time;
        let t2 = s2.last().time;
        lemma_at_time_of_last(s1);
        lemma_at_time_of_last(s2);
        lemma_ordered_drop_last(s1);
        lemma_ordered_drop_last(s2);
        assert(at_time(s1, t1) == at_time(s2, t1));
        assert(at_time(s1, t2) == at_time(s2, t2));
        lemma_at_time_found(s2, t1);
        lemma_at_time_found(s1, t2);
        assert(t1 == t2);
        assert(s1.last() == s2.last());
        assert forall|t: u32| #[trigger] at_time(s1.drop_last(), t) == at_time(s2.drop_last(), t) by {
            if t != t1 {
                assert(at_time(s1, t) == at_time(s2, t));
            }
        }
        lemma_ordered_determined(s1.drop_last(), s2.drop_last());
        assert(s1 =~= s1.drop_last().push(s1.last()));
        assert(s2 =~= s2.drop_last().push(s2.last()));
    }
}

/// The crossings kept at any time `t` are all those of `s` at `t` when
/// `0 < t < limit`, and none otherwise.
pub proof fn lemma_within_at_time(s: Seq<Crossing>, limit: u32, t: u32)
    ensures
        at_time(within(s, limit), t) == (if 0 < t < limit {
            at_time(s, t)
        } else {
            Seq::<Crossing>::empty()
        }),
    decreases s.len(),
{
    if s.len() > 0 {
        lemma_within_at_time(s.drop_last(), limit, t);
        let kept = within(s.drop_last(), limit);
        assert(kept.push(s.last()).drop_last() =~= kept);
    } else {
        assert(at_time(s, t) =~= Seq::<Crossing>::empty());
    }
}

/// Where a path leads depends only on which crossings it meets at each time
/// (and in which order at one time): crossings at different times may be listed
/// in any order.
pub proof fn lemma_destination_by_times(
    w: int,
    c1: Seq<Crossing>,
    c2: Seq<Crossing>,
    limit: u32,
)
    requires
        forall|t: u32| #[trigger] at_time(c1, t) == at_time(c2, t),
    ensures
        destination(w, c1, limit) == destination(w, c2, limit),
{
    let k1 = within(c1, limit);
    let k2 = within(c2, limit);
    lemma_sort_orders(k1);
    lemma_sort_orders(k2);
    assert forall|t: u32| #[trigger] at_time(sort_by_time(k1), t) == at_time(sort_by_time(k2), t) by {
        lemma_sort_is_stable(k1, t);
        lemma_sort_is_stable(k2, t);
        lemma_within_at_time(c1, limit, t);
        lemma_within_at_time(c2, limit, t);
        assert(at_time(c1, t) == at_time(c2, t));
    }
    lemma_ordered_determined(sort_by_time(k1), sort_by_time(k2));
}


/// What the crossings of `s` meet, in order, without their times.
pub open spec fn passages(s: Seq<Crossing>) -> Seq<Passage> {
    s.map_values(|c: Crossing| c.passage)
}

/// The crossings of `s` strictly between times `lo` and `hi`, in their order.
pub open spec fn between(s: Seq<Crossing>, lo: u32, hi: u32) -> Seq<Crossing>
    decreases s.len(),
{
    if s.len() == 0 {
        s
    } else {
        let kept = between(s.drop_last(), lo, hi);
        if lo < s.last().time < hi {
            kept.push(s.last())
        } else {
            kept
        }
    }
}

proof fn lemma_after_same_passages(w: int, s: Seq<Crossing>, t: Seq<Crossing>)
    requires
        passages(s) == passages(t),
    ensures
        after_crossings(w, s) == after_crossings(w, t),
    decreases s.len(),
{
    assert(s.len() == passages(s).len() && t.len() == passages(t).len());
    if s.len() > 0 {
        assert(passages(s.drop_last()) =~= passages(s).drop_last());
        assert(passages(t.drop_last()) =~= passages(t).drop_last());
        lemma_after_same_passages(w, s.drop_last(), t.drop_last());
        assert(passages(s)[s.len() - 1] == passages(t)[t.len() - 1]);
    }
}

/// Coming back: when a second path meets the passages of a first one in the
/// reverse order, it leads back to the world the first one started from.
pub proof fn lemma_travel_back(w: int, there: Seq<Crossing>, limit: u32, back: Seq<Crossing>, back_limit: u32)
    requires
        all_well_formed(there),
        passages(sort_by_time(within(back, back_limit))) == passages(
            sort_by_time(within(there, limit)),
        ).reverse(),
    ensures
        destination(destination(w, there, limit), back, back_limit) == world_of(w),
{
    let s = sort_by_time(within(there, limit));
    lemma_within_well_formed(there, limit);
    lemma_sort_well_formed(within(there, limit));
    lemma_world_numbers_wrap(w);
    let start = world_of(w);
    lemma_after_crossings_is_world(start, s);
    let mid = after_crossings(start, s);
    lemma_world_numbers_wrap(mid);
    assert(passages(s.reverse()) =~= passages(s).reverse());
    lemma_after_same_passages(mid, sort_by_time(within(back, back_limit)), s.reverse());
    lemma_return_trip(start, s);
}

proof fn lemma_at_time_append(a: Seq<Crossing>, b: Seq<Crossing>, t: u32)
    ensures
        at_time(a + b, t) == at_time(a, t) + at_time(b, t),
    decreases b.len(),
{
    if b.len() == 0 {
        assert(a + b =~= a);
        assert(at_time(a, t) + at_time(b, t) =~= at_time(a, t));
    } else {
        lemma_at_time_append(a, b.drop_last(), t);
        assert((a + b).drop_last() =~= a + b.drop_last());
        if b.last().time == t {
            assert(at_time(a, t) + at_time(b.drop_last(), t).push(b.last()) =~= (at_time(a, t)
                + at_time(b.drop_last(), t)).push(b.last()));
        }
    }
}

proof fn lemma_between_at_time(s: Seq<Crossing>, lo: u32, hi: u32, t: u32)
    ensures
        at_time(between(s, lo, hi), t) == (if lo < t < hi {
            at_time(s, t)
        } else {
            Seq::<Crossing>::empty()
        }),
    decreases s.len(),
{
    if s.len() > 0 {
        lemma_between_at_time(s.drop_last(), lo, hi, t);
        let kept = between(s.drop_last(), lo, hi);
        assert(kept.push(s.last()).drop_last() =~= kept);
    } else {
        assert(at_time(s, t) =~= Seq::<Crossing>::empty());
    }
}

proof fn lemma_at_time_absent(s: Seq<Crossing>, t: u32)
    requires
        forall|i: int| 0 <= i < s.len() ==> (#[trigger] s[i]).time != t,
    ensures
        at_time(s, t) == Seq::<Crossing>::empty(),
    decreases s.len(),
{
    if s.len() > 0 {
        assert forall|i: int| 0 <= i < s.drop_last().len() implies (#[trigger] s.drop_last()[i]).time
            != t by {
            assert(s.drop_last()[i] == s[i]);
        }
        lemma_at_time_absent(s.drop_last(), t);
        assert(s[s.len() - 1].time != t);
    } else {
        assert(s =~= Seq::<Crossing>::empty());
    }
}

/// Every crossing of `at_time(s, t)` is at time `t`, and when it is empty no
/// crossing of `s` is.
proof fn lemma_at_time_empty(s: Seq<Crossing>, t: u32)
    requires
        at_time(s, t).len() == 0,
    ensures
        forall|i: int| 0 <= i < s.len() ==> (#[trigger] s[i]).time != t,
    decreases s.len(),
{
    if s.len() > 0 {
        lemma_at_time_empty(s.drop_last(), t);
        assert forall|i: int| 0 <= i < s.len() implies (#[trigger] s[i]).time != t by {
            if i < s.len() - 1 {
                assert(s[i] == s.drop_last()[i]);
            }
        }
    }
}

/// A path split at a point where it meets nothing: taking the crossings before
/// the split point, then those after it, is taking all of them.
proof fn lemma_split_order(s: Seq<Crossing>, mid: u32, limit: u32)
    requires
        0 < mid < limit,
        forall|i: int| 0 <= i < s.len() ==> (#[trigger] s[i]).time != mid,
    ensures
        sort_by_time(within(s, limit)) == sort_by_time(within(s, mid)) + sort_by_time(
            between(s, mid, limit),
        ),
{
    let a = sort_by_time(within(s, mid));
    let b = sort_by_time(between(s, mid, limit));
    lemma_sort_orders(within(s, limit));
    lemma_sort_orders(within(s, mid));
    lemma_sort_orders(between(s, mid, limit));
    lemma_at_time_absent(s, mid);
    // every crossing of `a` is before `mid`, every crossing of `b` after it
    assert forall|i: int| 0 <= i < a.len() implies (#[trigger] a[i]).time < mid by {
        let t = a[i].time;
        if t >= mid {
            lemma_sort_is_stable(within(s, mid), t);
            lemma_within_at_time(s, mid, t);
            lemma_at_time_empty(a, t);
        }
    }
    assert forall|i: int| 0 <= i < b.len() implies (#[trigger] b[i]).time > mid by {
        let t = b[i].time;
        if t <= mid {
            lemma_sort_is_stable(between(s, mid, limit), t);
            lemma_between_at_time(s, mid, limit, t);
            lemma_at_time_empty(b, t);
        }
    }
    assert(ordered_by_time(a + b)) by {
        assert forall|i: int, j: int| 0 <= i < j < (a + b).len() implies (a + b)[i].time <= (a
            + b)[j].time by {
            if j < a.len() {
                assert((a + b)[i] == a[i] && (a + b)[j] == a[j]);
            } else if i >= a.len() {
                assert((a + b)[i] == b[i - a.len()] && (a + b)[j] == b[j - a.len()]);
            } else {
                assert((a + b)[i] == a[i] && (a + b)[j] == b[j - a.len()]);
            }
        }
    }
    assert forall|t: u32| #[trigger] at_time(sort_by_time(within(s, limit)), t) == at_time(
        a + b,
        t,
    ) by {
        lemma_sort_is_stable(within(s, limit), t);
        lemma_sort_is_stable(within(s, mid), t);
        lemma_sort_is_stable(between(s, mid, limit), t);
        lemma_within_at_time(s, limit, t);
        lemma_within_at_time(s, mid, t);
        lemma_between_at_time(s, mid, limit, t);
        lemma_at_time_append(a, b, t);
        if 0 < t < mid {
            assert(at_time(s, t) + Seq::<Crossing>::empty() =~= at_time(s, t));
        } else if mid < t < limit {
            assert(Seq::<Crossing>::empty() + at_time(s, t) =~= at_time(s, t));
        } else {
            assert(Seq::<Crossing>::empty() + Seq::<Crossing>::empty() =~= Seq::<Crossing>::empty());
        }
    }
    lemma_ordered_determined(sort_by_time(within(s, limit)), a + b);
}

/// A trip split in two: going from the start to a point where the path meets
/// nothing, then on from there along a path that meets, in order, the passages
/// that the whole path meets beyond that point, leads to the world the whole
/// trip leads to.
pub proof fn lemma_split_trip(
    w: int,
    whole: Seq<Crossing>,
    mid: u32,
    limit: u32,
    rest: Seq<Crossing>,
    rest_limit: u32,
)
    requires
        all_well_formed(whole),
        0 < mid < limit,
        forall|i: int| 0 <= i < whole.len() ==> (#[trigger] whole[i]).time != mid,
        passages(sort_by_time(within(rest, rest_limit))) == passages(
            sort_by_time(between(whole, mid, limit)),
        ),
    ensures
        destination(destination(w, whole, mid), rest, rest_limit) == destination(w, whole, limit),
{
    lemma_world_numbers_wrap(w);
    let start = world_of(w);
    let a = sort_by_time(within(whole, mid));
    let b = sort_by_time(between(whole, mid, limit));
    lemma_within_well_formed(whole, mid);
    lemma_sort_well_formed(within(whole, mid));
    lemma_after_crossings_is_world(start, a);
    let here = after_crossings(start, a);
    lemma_world_numbers_wrap(here);
    lemma_after_same_passages(here, sort_by_time(within(rest, rest_limit)), b);
    lemma_split_order(whole, mid, limit);
    lemma_after_append(start, a, b);
}


/// Which sheet of the knot lies on top follows the parity of the inequalities:
/// with none of them holding the upper sheet is on top, and changing any one of
/// the four flags changes the sheet.
pub proof fn lemma_sheet_parity(r: Region)
    ensures
        upper_sheet(
            Region {
                x_positive: false,
                left_of_rising: false,
                left_of_falling: false,
                outside_ring: false,
            },
        ),
        upper_sheet(
            Region {
                x_positive: !r.x_positive,
                left_of_rising: r.left_of_rising,
                left_of_falling: r.left_of_falling,
                outside_ring: r.outside_ring,
            },
        ) == !upper_sheet(r),
        upper_sheet(
            Region {
                x_positive: r.x_positive,
                left_of_rising: !r.left_of_rising,
                left_of_falling: r.left_of_falling,
                outside_ring: r.outside_ring,
            },
        ) == !upper_sheet(r),
        upper_sheet(
            Region {
                x_positive: r.x_positive,
                left_of_rising: r.left_of_rising,
                left_of_falling: !r.left_of_falling,
                outside_ring: r.outside_ring,
            },
        ) == !upper_sheet(r),
        upper_sheet(
            Region {
                x_positive: r.x_positive,
                left_of_rising: r.left_of_rising,
                left_of_falling: r.left_of_falling,
                outside_ring: !r.outside_ring,
            },
        ) == !upper_sheet(r),
        upper_sheet(r) <==> ((if r.x_positive { 1int } else { 0 }) + (if r.left_of_rising {
            1int
        } else {
            0
        }) + (if r.left_of_falling { 1int } else { 0 }) + (if r.outside_ring {
            1int
        } else {
            0
        })) % 2 == 0,
{
}


/// The spherical portals join, in order: worlds 0 and 1; 2 and 3; 4 and 5; 0
/// and 2; 1 and 3; 4 and 0.
pub proof fn lemma_sphere_table()
    ensures
        sphere_link(0) == (0int, 1int),
        sphere_link(1) == (2int, 3int),
        sphere_link(2) == (4int, 5int),
        sphere_link(3) == (0int, 2int),
        sphere_link(4) == (1int, 3int),
        sphere_link(5) == (4int, 0int),
{
}

} // verus!
