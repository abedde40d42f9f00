//! What the two grouping passes of the collapse keep: every node that goes
//! in comes out in exactly one group.
use vstd::prelude::*;
use vstd::multiset::Multiset;

use crate::device_group::{
    add_member, attach_target, attached, extend_kept, first_pass, is_kept_key, key_index,
    matching_keys, orphans, second_pass, serial_keys,
};
use crate::models::DeviceView;
use crate::text::starts_with;

verus! {

broadcast use vstd::multiset::group_multiset_axioms, vstd::seq_lib::group_to_multiset_ensures;

pub type Groups = Seq<(Seq<char>, Seq<DeviceView>)>;

/// Every member of every group, as a multiset.
pub open spec fn members_ms(gs: Groups) -> Multiset<DeviceView>
    decreases gs.len(),
{
    if gs.len() == 0 {
        Multiset::empty()
    } else {
        members_ms(gs.drop_last()).add(gs.last().1.to_multiset())
    }
}

/// The members of the groups kept as they are (serial and Linux groups).
pub open spec fn kept_ms(p: Groups) -> Multiset<DeviceView>
    decreases p.len(),
{
    if p.len() == 0 {
        Multiset::empty()
    } else {
        kept_ms(p.drop_last()).add(
            if is_kept_key(p.last().0) {
                p.last().1.to_multiset()
            } else {
                Multiset::empty()
            },
        )
    }
}

/// The members of the groups that stay on their own.
pub open spec fn orphan_ms(p: Groups, sks: Seq<Seq<char>>) -> Multiset<DeviceView>
    decreases p.len(),
{
    if p.len() == 0 {
        Multiset::empty()
    } else {
        orphan_ms(p.drop_last(), sks).add(
            if !is_kept_key(p.last().0) && attach_target(sks, p.last()) is None {
                p.last().1.to_multiset()
            } else {
                Multiset::empty()
            },
        )
    }
}

/// The members of the groups that fold into a serial group.
pub open spec fn folded_ms(p: Groups, sks: Seq<Seq<char>>) -> Multiset<DeviceView>
    decreases p.len(),
{
    if p.len() == 0 {
        Multiset::empty()
    } else {
        folded_ms(p.drop_last(), sks).add(
            if attach_target(sks, p.last()) is Some {
                p.last().1.to_multiset()
            } else {
                Multiset::empty()
            },
        )
    }
}

/// What the kept groups of `p` gather from the groups `h`.
pub open spec fn gathered_ms(p: Groups, h: Groups, sks: Seq<Seq<char>>) -> Multiset<DeviceView>
    decreases p.len(),
{
    if p.len() == 0 {
        Multiset::empty()
    } else {
        gathered_ms(p.drop_last(), h, sks).add(
            if is_kept_key(p.last().0) {
                attached(h, sks, p.last().0).to_multiset()
            } else {
                Multiset::empty()
            },
        )
    }
}

/// What the kept groups of `p` gather from the one group `g`.
pub open spec fn gathered_one(p: Groups, g: (Seq<char>, Seq<DeviceView>), sks: Seq<Seq<char>>) -> Multiset<
    DeviceView,
>
    decreases p.len(),
{
    if p.len() == 0 {
        Multiset::empty()
    } else {
        gathered_one(p.drop_last(), g, sks).add(
            if is_kept_key(p.last().0) && attach_target(sks, g) == Some(p.last().0) {
                g.1.to_multiset()
            } else {
                Multiset::empty()
            },
        )
    }
}

/// How many kept groups of `p` have key `t`.
pub open spec fn kept_count(p: Groups, t: Seq<char>) -> nat
    decreases p.len(),
{
    if p.len() == 0 {
        0
    } else {
        kept_count(p.drop_last(), t) + if is_kept_key(p.last().0) && p.last().0 == t {
            1nat
        } else {
            0nat
        }
    }
}

pub open spec fn keys_distinct(gs: Groups) -> bool {
    forall|i: int, j: int| 0 <= i < j < gs.len() ==> (#[trigger] gs[i]).0 != (#[trigger] gs[j]).0
}

proof fn lemma_members_push(gs: Groups, g: (Seq<char>, Seq<DeviceView>))
    ensures
        members_ms(gs.push(g)) == members_ms(gs).add(g.1.to_multiset()),
{
    assert(gs.push(g).drop_last() =~= gs);
}

proof fn lemma_members_concat(a: Groups, b: Groups)
    ensures
        members_ms(a + b) =~= members_ms(a).add(members_ms(b)),
    decreases b.len(),
{
    if b.len() == 0 {
        assert(a + b =~= a);
    } else {
        lemma_members_concat(a, b.drop_last());
        assert((a + b).drop_last() =~= a + b.drop_last());
        assert((a + b).last() == b.last());
    }
}

proof fn lemma_members_update(gs: Groups, j: int, g: (Seq<char>, Seq<DeviceView>))
    requires
        0 <= j < gs.len(),
    ensures
        members_ms(gs.update(j, g)).add(gs[j].1.to_multiset()) =~= members_ms(gs).add(
            g.1.to_multiset(),
        ),
    decreases gs.len(),
{
    let u = gs.update(j, g);
    let lhs = members_ms(u).add(gs[j].1.to_multiset());
    let rhs = members_ms(gs).add(g.1.to_multiset());
    if j == gs.len() - 1 {
        assert(u.drop_last() =~= gs.drop_last());
        assert(u.last() == g);
        assert(gs.last() == gs[j]);
        assert(members_ms(u) == members_ms(gs.drop_last()).add(g.1.to_multiset()));
        assert(members_ms(gs) == members_ms(gs.drop_last()).add(gs[j].1.to_multiset()));
        assert forall|v: DeviceView| #[trigger] lhs.count(v) == rhs.count(v) by {}
    } else {
        let q = gs.drop_last();
        lemma_members_update(q, j, g);
        assert(u.drop_last() =~= q.update(j, g));
        assert(u.last() == gs.last());
        assert(q[j] == gs[j]);
        let a = members_ms(q.update(j, g));
        let b = members_ms(q);
        assert(members_ms(u) == a.add(gs.last().1.to_multiset()));
        assert(members_ms(gs) == b.add(gs.last().1.to_multiset()));
        assert forall|v: DeviceView| #[trigger] lhs.count(v) == rhs.count(v) by {
            assert(a.add(q[j].1.to_multiset()).count(v) == b.add(g.1.to_multiset()).count(v));
        }
    }
    assert(lhs =~= rhs);
}

proof fn lemma_members_add_member(gs: Groups, k: Seq<char>, d: DeviceView)
    ensures
        members_ms(add_member(gs, k, d)) =~= members_ms(gs).insert(d),
{
    crate::device_group::lemma_key_index_bounds(gs, k, 0);
    match key_index(gs, k, 0) {
        Some(j) => {
            lemma_members_update(gs, j, (k, gs[j].1.push(d)));
            assert(gs[j].1.push(d).to_multiset() =~= gs[j].1.to_multiset().insert(d));
            assert(add_member(gs, k, d) == gs.update(j, (k, gs[j].1.push(d))));
            let u = members_ms(add_member(gs, k, d));
            let w = members_ms(gs).insert(d);
            assert forall|v: DeviceView| #[trigger] u.count(v) == w.count(v) by {
                assert(u.add(gs[j].1.to_multiset()).count(v) == members_ms(gs).add(
                    gs[j].1.push(d).to_multiset(),
                ).count(v));
            }
        },
        None => {
            lemma_members_push(gs, (k, seq![d]));
            assert(seq![d] =~= Seq::<DeviceView>::empty().push(d));
        },
    }
}

proof fn lemma_first_pass_members(ds: Seq<DeviceView>)
    ensures
        members_ms(first_pass(ds)) =~= ds.to_multiset(),
    decreases ds.len(),
{
    if ds.len() > 0 {
        lemma_first_pass_members(ds.drop_last());
        lemma_members_add_member(
            first_pass(ds.drop_last()),
            crate::device_group::group_key(ds.last()),
            ds.last(),
        );
        assert(ds.drop_last().push(ds.last()) =~= ds);
    }
}

proof fn lemma_key_index_none(gs: Groups, k: Seq<char>, i: int)
    requires
        0 <= i,
        key_index(gs, k, i) is None,
    ensures
        forall|j: int| i <= j < gs.len() ==> (#[trigger] gs[j]).0 != k,
    decreases gs.len() - i,
{
    if i < gs.len() {
        lemma_key_index_none(gs, k, i + 1);
    }
}

proof fn lemma_first_pass_keys(ds: Seq<DeviceView>)
    ensures
        keys_distinct(first_pass(ds)),
    decreases ds.len(),
{
    if ds.len() > 0 {
        lemma_first_pass_keys(ds.drop_last());
        let gs = first_pass(ds.drop_last());
        let k = crate::device_group::group_key(ds.last());
        crate::device_group::lemma_key_index_bounds(gs, k, 0);
        let r = add_member(gs, k, ds.last());
        match key_index(gs, k, 0) {
            Some(j) => {
                assert forall|a: int, b: int| 0 <= a < b < r.len() implies (#[trigger] r[a]).0 != (
                #[trigger] r[b]).0 by {
                    assert(r[a].0 == gs[a].0 && r[b].0 == gs[b].0);
                }
            },
            None => {
                lemma_key_index_none(gs, k, 0);
                assert forall|a: int, b: int| 0 <= a < b < r.len() implies (#[trigger] r[a]).0 != (
                #[trigger] r[b]).0 by {
                    if b < gs.len() {
                        assert(r[a] == gs[a] && r[b] == gs[b]);
                    } else {
                        assert(r[a] == gs[a]);
                    }
                }
            },
        }
    }
}

proof fn lemma_partition(p: Groups, sks: Seq<Seq<char>>)
    ensures
        members_ms(p) =~= kept_ms(p).add(orphan_ms(p, sks)).add(folded_ms(p, sks)),
    decreases p.len(),
{
    if p.len() > 0 {
        lemma_partition(p.drop_last(), sks);
    }
}

proof fn lemma_extend_members(p: Groups, gs: Groups, sks: Seq<Seq<char>>)
    ensures
        members_ms(extend_kept(p, gs, sks)) =~= kept_ms(p).add(gathered_ms(p, gs, sks)),
    decreases p.len(),
{
    if p.len() > 0 {
        lemma_extend_members(p.drop_last(), gs, sks);
        let g = p.last();
        if is_kept_key(g.0) {
            let x = extend_kept(p.drop_last(), gs, sks);
            lemma_members_push(x, (g.0, g.1 + attached(gs, sks, g.0)));
            vstd::seq_lib::lemma_multiset_commutative(g.1, attached(gs, sks, g.0));
        }
    }
}

proof fn lemma_orphan_members(p: Groups, sks: Seq<Seq<char>>)
    ensures
        members_ms(orphans(p, sks)) =~= orphan_ms(p, sks),
    decreases p.len(),
{
    if p.len() > 0 {
        lemma_orphan_members(p.drop_last(), sks);
        let g = p.last();
        if !is_kept_key(g.0) && attach_target(sks, g) is None {
            lemma_members_push(orphans(p.drop_last(), sks), g);
        }
    }
}

proof fn lemma_gathered_step(p: Groups, h: Groups, sks: Seq<Seq<char>>)
    requires
        h.len() > 0,
    ensures
        gathered_ms(p, h, sks) =~= gathered_ms(p, h.drop_last(), sks).add(
            gathered_one(p, h.last(), sks),
        ),
    decreases p.len(),
{
    if p.len() > 0 {
        lemma_gathered_step(p.drop_last(), h, sks);
        let k = p.last().0;
        if is_kept_key(k) && attach_target(sks, h.last()) == Some(k) {
            vstd::seq_lib::lemma_multiset_commutative(attached(h.drop_last(), sks, k), h.last().1);
        }
    }
}

proof fn lemma_gathered_one(p: Groups, g: (Seq<char>, Seq<DeviceView>), sks: Seq<Seq<char>>)
    ensures
        attach_target(sks, g) is None ==> gathered_one(p, g, sks) =~= Multiset::empty(),
        attach_target(sks, g) matches Some(t) && kept_count(p, t) == 0 ==> gathered_one(p, g, sks)
            =~= Multiset::empty(),
        attach_target(sks, g) matches Some(t) && kept_count(p, t) == 1 ==> gathered_one(p, g, sks)
            =~= g.1.to_multiset(),
    decreases p.len(),
{
    if p.len() > 0 {
        lemma_gathered_one(p.drop_last(), g, sks);
    }
}

proof fn lemma_gathered(p: Groups, h: Groups, sks: Seq<Seq<char>>)
    requires
        forall|i: int|
            0 <= i < h.len() ==> (attach_target(sks, #[trigger] h[i]) matches Some(t) ==> kept_count(
                p,
                t,
            ) == 1),
    ensures
        gathered_ms(p, h, sks) =~= folded_ms(h, sks),
    decreases h.len(),
{
    if h.len() == 0 {
        assert(gathered_ms(p, h, sks) =~= Multiset::empty()) by {
            lemma_gathered_empty(p, h, sks);
        }
    } else {
        assert forall|i: int| 0 <= i < h.drop_last().len() implies (attach_target(
            sks,
            #[trigger] h.drop_last()[i],
        ) matches Some(t) ==> kept_count(p, t) == 1) by {
            assert(h.drop_last()[i] == h[i]);
        }
        lemma_gathered(p, h.drop_last(), sks);
        lemma_gathered_step(p, h, sks);
        assert(h.last() == h[h.len() - 1]);
        lemma_gathered_one(p, h.last(), sks);
    }
}

proof fn lemma_gathered_empty(p: Groups, h: Groups, sks: Seq<Seq<char>>)
    requires
        h.len() == 0,
    ensures
        gathered_ms(p, h, sks) =~= Multiset::empty(),
    decreases p.len(),
{
    if p.len() > 0 {
        lemma_gathered_empty(p.drop_last(), h, sks);
        assert(attached(h, sks, p.last().0) =~= Seq::<DeviceView>::empty());
    }
}

proof fn lemma_kept_count_zero(p: Groups, t: Seq<char>)
    requires
        forall|i: int| 0 <= i < p.len() ==> (#[trigger] p[i]).0 != t,
    ensures
        kept_count(p, t) == 0,
    decreases p.len(),
{
    if p.len() > 0 {
        assert forall|i: int| 0 <= i < p.drop_last().len() implies (
        #[trigger] p.drop_last()[i]).0 != t by {
            assert(p.drop_last()[i] == p[i]);
        }
        lemma_kept_count_zero(p.drop_last(), t);
        assert(p.last() == p[p.len() - 1]);
    }
}

proof fn lemma_kept_count_one(p: Groups, t: Seq<char>, i: int)
    requires
        keys_distinct(p),
        0 <= i < p.len(),
        p[i].0 == t,
        is_kept_key(t),
    ensures
        kept_count(p, t) == 1,
    decreases p.len(),
{
    let q = p.drop_last();
    assert forall|a: int, b: int| 0 <= a < b < q.len() implies (#[trigger] q[a]).0 != (
    #[trigger] q[b]).0 by {
        assert(q[a] == p[a] && q[b] == p[b]);
    }
    if i == p.len() - 1 {
        assert forall|a: int| 0 <= a < q.len() implies (#[trigger] q[a]).0 != t by {
            assert(q[a] == p[a]);
        }
        lemma_kept_count_zero(q, t);
    } else {
        assert(q[i] == p[i]);
        lemma_kept_count_one(q, t, i);
        assert(p.last() == p[p.len() - 1]);
    }
}

proof fn lemma_serial_keys_from(gs: Groups, t: Seq<char>)
    requires
        serial_keys(gs).contains(t),
    ensures
        exists|i: int| 0 <= i < gs.len() && (#[trigger] gs[i]).0 == t,
        starts_with(t, "serial:"@),
    decreases gs.len(),
{
    if gs.len() > 0 {
        let r = serial_keys(gs.drop_last());
        if starts_with(gs.last().0, "serial:"@) && t == gs.last().0 {
            assert(gs[gs.len() - 1].0 == t);
        } else {
            if starts_with(gs.last().0, "serial:"@) {
                assert(serial_keys(gs) == r.push(gs.last().0));
                let k = choose|k: int| 0 <= k < serial_keys(gs).len() && serial_keys(gs)[k] == t;
                assert(k < r.len());
                assert(r[k] == t);
            }
            lemma_serial_keys_from(gs.drop_last(), t);
            let i = choose|i: int| 0 <= i < gs.drop_last().len() && (#[trigger] gs.drop_last()[i]).0 == t;
            assert(gs[i] == gs.drop_last()[i]);
        }
    }
}

proof fn lemma_matching_from(sks: Seq<Seq<char>>, pat: Seq<char>, t: Seq<char>)
    requires
        matching_keys(sks, pat).contains(t),
    ensures
        sks.contains(t),
    decreases sks.len(),
{
    if sks.len() > 0 {
        let r = matching_keys(sks.drop_last(), pat);
        if t == sks.last() {
            assert(sks[sks.len() - 1] == t);
        } else {
            if crate::text::contains(sks.last(), pat) {
                let k = choose|k: int|
                    0 <= k < matching_keys(sks, pat).len() && matching_keys(sks, pat)[k] == t;
                assert(matching_keys(sks, pat) == r.push(sks.last()));
                assert(k < r.len());
                assert(r[k] == t);
            }
            lemma_matching_from(sks.drop_last(), pat, t);
            let i = choose|i: int| 0 <= i < sks.drop_last().len() && sks.drop_last()[i] == t;
            assert(sks[i] == sks.drop_last()[i]);
        }
    }
}

proof fn lemma_target_from(sks: Seq<Seq<char>>, g: (Seq<char>, Seq<DeviceView>))
    ensures
        attach_target(sks, g) matches Some(t) ==> sks.contains(t),
{
    if !is_kept_key(g.0) {
        match (crate::device_group::first_vid(g.1, 0), crate::device_group::first_pid(g.1, 0)) {
            (Some(v), Some(p)) => {
                let pat = crate::device_group::vid_pid_tag(v, p);
                let m = matching_keys(sks, pat);
                if m.len() == 1 {
                    assert(m.contains(m[0]));
                    lemma_matching_from(sks, pat, m[0]);
                }
            },
            _ => {},
        }
    }
}

/// Grouping loses no node and repeats none: the groups left after both
/// passes hold exactly the devices given, each as often as it was given.
pub proof fn law_grouping_keeps_every_device(ds: Seq<DeviceView>)
    ensures
        members_ms(second_pass(first_pass(ds))) =~= ds.to_multiset(),
{
    let gs = first_pass(ds);
    let sks = serial_keys(gs);
    lemma_first_pass_members(ds);
    lemma_first_pass_keys(ds);
    lemma_members_concat(extend_kept(gs, gs, sks), orphans(gs, sks));
    lemma_extend_members(gs, gs, sks);
    lemma_orphan_members(gs, sks);
    assert forall|i: int|
        0 <= i < gs.len() implies (attach_target(sks, #[trigger] gs[i]) matches Some(t)
        ==> kept_count(gs, t) == 1) by {
        lemma_target_from(sks, gs[i]);
        if let Some(t) = attach_target(sks, gs[i]) {
            lemma_serial_keys_from(gs, t);
            let j = choose|j: int| 0 <= j < gs.len() && (#[trigger] gs[j]).0 == t;
            lemma_kept_count_one(gs, t, j);
        }
    }
    lemma_gathered(gs, gs, sks);
    lemma_partition(gs, sks);
}

/// Collapsing a non-empty list of devices always shows at least one device.
pub proof fn law_collapse_keeps_a_device(ds: Seq<DeviceView>)
    requires
        ds.len() > 0,
    ensures
        crate::device_group::collapse(ds).len() >= 1,
{
    if ds.len() > 1 {
        law_grouping_keeps_every_device(ds);
        let g = second_pass(first_pass(ds));
        if g.len() == 0 {
            assert(members_ms(g) =~= Multiset::empty());
            assert(ds.to_multiset().len() == ds.len());
            assert(false);
        }
        crate::device_group::lemma_sort_by_id(crate::device_group::merge_all(g));
    }
}


proof fn lemma_insert_contains(r: Seq<DeviceView>, p: int, x: DeviceView)
    requires
        0 <= p <= r.len(),
    ensures
        forall|y: DeviceView| r.insert(p, x).contains(y) <==> (y == x || r.contains(y)),
{
    let t = r.insert(p, x);
    assert forall|y: DeviceView| t.contains(y) implies (y == x || r.contains(y)) by {
        let i = choose|i: int| 0 <= i < t.len() && t[i] == y;
        if i < p {
            assert(r[i] == y);
        } else if i > p {
            assert(r[i - 1] == y);
        }
    }
    assert forall|y: DeviceView| (y == x || r.contains(y)) implies t.contains(y) by {
        if y == x {
            assert(t[p] == y);
        } else {
            let i = choose|i: int| 0 <= i < r.len() && r[i] == y;
            if i < p {
                assert(t[i] == y);
            } else {
                assert(t[i + 1] == y);
            }
        }
    }
}

proof fn lemma_last_contains(s: Seq<DeviceView>)
    requires
        s.len() > 0,
    ensures
        forall|y: DeviceView| s.contains(y) <==> (y == s.last() || s.drop_last().contains(y)),
{
    assert(s =~= s.drop_last().push(s.last()));
    assert forall|y: DeviceView| s.contains(y) implies (y == s.last() || s.drop_last().contains(
        y,
    )) by {
        let i = choose|i: int| 0 <= i < s.len() && s[i] == y;
        if i < s.len() - 1 {
            assert(s.drop_last()[i] == y);
        }
    }
    assert forall|y: DeviceView| (y == s.last() || s.drop_last().contains(y)) implies s.contains(
        y,
    ) by {
        if y == s.last() {
            assert(s[s.len() - 1] == y);
        } else {
            let i = choose|i: int| 0 <= i < s.drop_last().len() && s.drop_last()[i] == y;
            assert(s[i] == y);
        }
    }
}

/// Ordering by id keeps the same devices.
proof fn lemma_sort_by_id_same(s: Seq<DeviceView>, y: DeviceView)
    ensures
        crate::device_group::sort_by_id(s).contains(y) <==> s.contains(y),
    decreases s.len(),
{
    if s.len() > 0 {
        let r = crate::device_group::sort_by_id(s.drop_last());
        lemma_sort_by_id_same(s.drop_last(), y);
        crate::device_group::lemma_id_pos(r, s.last(), 0);
        lemma_insert_contains(r, crate::device_group::id_pos(r, s.last(), 0), s.last());
        lemma_last_contains(s);
        assert(crate::device_group::sort_by_id(s) == r.insert(
            crate::device_group::id_pos(r, s.last(), 0),
            s.last(),
        ));
    }
}

/// Ordering by interface score keeps the same devices.
proof fn lemma_sort_by_score_same(s: Seq<DeviceView>, y: DeviceView)
    ensures
        crate::device_group::sort_by_score(s).contains(y) <==> s.contains(y),
    decreases s.len(),
{
    if s.len() > 0 {
        let r = crate::device_group::sort_by_score(s.drop_last());
        let v = crate::device_group::interface_score(s.last());
        lemma_sort_by_score_same(s.drop_last(), y);
        crate::device_group::lemma_sort_by_score_len(s.drop_last());
        crate::device_group::lemma_score_pos(r, v, 0);
        lemma_insert_contains(r, crate::device_group::score_pos(r, v, 0), s.last());
        lemma_last_contains(s);
        assert(crate::device_group::sort_by_score(s) == r.insert(
            crate::device_group::score_pos(r, v, 0),
            s.last(),
        ));
    }
}

/// A device is a member of some group exactly when the multiset of members counts it.
proof fn lemma_members_ms_contains(gs: Groups, y: DeviceView)
    ensures
        members_ms(gs).count(y) > 0 <==> exists|j: int|
            0 <= j < gs.len() && (#[trigger] gs[j]).1.contains(y),
    decreases gs.len(),
{
    if gs.len() > 0 {
        let h = gs.drop_last();
        lemma_members_ms_contains(h, y);
        gs.last().1.to_multiset_ensures();
        if members_ms(gs).count(y) > 0 {
            if members_ms(h).count(y) > 0 {
                let j = choose|j: int| 0 <= j < h.len() && (#[trigger] h[j]).1.contains(y);
                assert(gs[j] == h[j]);
            } else {
                assert(gs[gs.len() - 1].1.contains(y));
            }
        }
        if exists|j: int| 0 <= j < gs.len() && (#[trigger] gs[j]).1.contains(y) {
            let j = choose|j: int| 0 <= j < gs.len() && (#[trigger] gs[j]).1.contains(y);
            if j < gs.len() - 1 {
                assert(h[j] == gs[j]);
            }
        }
    }
}

proof fn lemma_first_battery_some(ms: Seq<DeviceView>, i: int)
    requires
        0 <= i,
    ensures
        crate::device_group::first_battery(ms, i) is Some <==> exists|k: int|
            i <= k < ms.len() && (#[trigger] ms[k]).battery is Some,
    decreases ms.len() - i,
{
    if i < ms.len() {
        lemma_first_battery_some(ms, i + 1);
    }
}

proof fn lemma_merged_id_prefix(key: Seq<char>, ms: Seq<DeviceView>)
    ensures
        starts_with(crate::device_group::merged_id(key, ms), "apple-trackpad:"@),
{
    reveal_strlit("apple-trackpad:");
    let a = "apple-trackpad:"@;
    let id = crate::device_group::merged_id(key, ms);
    match crate::device_group::first_serial(ms, 0) {
        Some(s) => {
            let b = crate::device_group::vid_pid_tag(
                crate::device_group::opt_or_zero(crate::device_group::first_vid(ms, 0)),
                crate::device_group::opt_or_zero(crate::device_group::first_pid(ms, 0)),
            );
            assert(id == a + b + s);
            assert((a + b + s).subrange(0, a.len() as int) =~= a);
        },
        None => {
            assert(id == a + key);
            assert((a + key).subrange(0, a.len() as int) =~= a);
        },
    }
}

/// Whether a device is what one of the groups merges into.
spec fn from_group(d: DeviceView, g: Groups) -> bool {
    exists|j: int|
        0 <= j < g.len() && d == crate::device_group::merge(
            (#[trigger] g[j]).0,
            crate::device_group::sort_by_score(g[j].1),
        )
}

/// Collapsing several nodes shows each physical device under an
/// `apple-trackpad:` id, shows a device as connected exactly when some node
/// was connected, and shows a battery exactly when some node reported one.
pub proof fn law_collapse_marks_ids_and_keeps_state(ds: Seq<DeviceView>)
    requires
        ds.len() > 1,
    ensures
        forall|i: int|
            0 <= i < crate::device_group::collapse(ds).len() ==> starts_with(
                (#[trigger] crate::device_group::collapse(ds)[i]).id,
                "apple-trackpad:"@,
            ),
        (exists|i: int|
            0 <= i < crate::device_group::collapse(ds).len()
                && (#[trigger] crate::device_group::collapse(ds)[i]).connected) <==> (exists|j: int|
            0 <= j < ds.len() && (#[trigger] ds[j]).connected),
        (exists|i: int|
            0 <= i < crate::device_group::collapse(ds).len()
                && (#[trigger] crate::device_group::collapse(ds)[i]).battery is Some) <==> (exists|
            j: int,
        | 0 <= j < ds.len() && (#[trigger] ds[j]).battery is Some),
{
    let g = second_pass(first_pass(ds));
    let m = crate::device_group::merge_all(g);
    let out = crate::device_group::collapse(ds);
    assert(out == crate::device_group::sort_by_id(m));
    law_grouping_keeps_every_device(ds);
    ds.to_multiset_ensures();
    assert forall|i: int| 0 <= i < out.len() implies starts_with(
        (#[trigger] out[i]).id,
        "apple-trackpad:"@,
    ) by {
        assert(out.contains(out[i]));
        lemma_sort_by_id_same(m, out[i]);
        let j = choose|j: int| 0 <= j < m.len() && m[j] == out[i];
        lemma_merged_id_prefix(g[j].0, crate::device_group::sort_by_score(g[j].1));
    }
    // Each shown device comes from one group, whose members are nodes given.
    assert forall|i: int| 0 <= i < out.len() implies #[trigger] from_group(out[i], g) by {
        assert(out.contains(out[i]));
        lemma_sort_by_id_same(m, out[i]);
        let j = choose|j: int| 0 <= j < m.len() && m[j] == out[i];
        assert(m[j] == crate::device_group::merge(g[j].0, crate::device_group::sort_by_score(g[j].1)));
    }
    if exists|i: int| 0 <= i < out.len() && (#[trigger] out[i]).connected {
        let i = choose|i: int| 0 <= i < out.len() && (#[trigger] out[i]).connected;
        assert(from_group(out[i], g));
        let j = choose|j: int|
            0 <= j < g.len() && out[i] == crate::device_group::merge(
                (#[trigger] g[j]).0,
                crate::device_group::sort_by_score(g[j].1),
            );
        let ss = crate::device_group::sort_by_score(g[j].1);
        let k = choose|k: int| 0 <= k < ss.len() && ss[k].connected;
        assert(ss.contains(ss[k]));
        lemma_sort_by_score_same(g[j].1, ss[k]);
        lemma_members_ms_contains(g, ss[k]);
        let w = choose|w: int| 0 <= w < ds.len() && ds[w] == ss[k];
        assert(ds[w].connected);
    }
    if exists|w: int| 0 <= w < ds.len() && (#[trigger] ds[w]).connected {
        let w = choose|w: int| 0 <= w < ds.len() && (#[trigger] ds[w]).connected;
        assert(ds.contains(ds[w]));
        lemma_members_ms_contains(g, ds[w]);
        let j = choose|j: int| 0 <= j < g.len() && (#[trigger] g[j]).1.contains(ds[w]);
        let ss = crate::device_group::sort_by_score(g[j].1);
        lemma_sort_by_score_same(g[j].1, ds[w]);
        assert(ss.contains(ds[w]));
        let k = choose|k: int| 0 <= k < ss.len() && ss[k] == ds[w];
        assert(m[j].connected);
        assert(m.contains(m[j]));
        lemma_sort_by_id_same(m, m[j]);
        let i = choose|i: int| 0 <= i < out.len() && out[i] == m[j];
        assert(out[i].connected);
    }
    if exists|i: int| 0 <= i < out.len() && (#[trigger] out[i]).battery is Some {
        let i = choose|i: int| 0 <= i < out.len() && (#[trigger] out[i]).battery is Some;
        assert(from_group(out[i], g));
        let j = choose|j: int|
            0 <= j < g.len() && out[i] == crate::device_group::merge(
                (#[trigger] g[j]).0,
                crate::device_group::sort_by_score(g[j].1),
            );
        let ss = crate::device_group::sort_by_score(g[j].1);
        lemma_first_battery_some(ss, 0);
        let k = choose|k: int| 0 <= k < ss.len() && (#[trigger] ss[k]).battery is Some;
        assert(ss.contains(ss[k]));
        lemma_sort_by_score_same(g[j].1, ss[k]);
        lemma_members_ms_contains(g, ss[k]);
        let w = choose|w: int| 0 <= w < ds.len() && ds[w] == ss[k];
        assert(ds[w].battery is Some);
    }
    if exists|w: int| 0 <= w < ds.len() && (#[trigger] ds[w]).battery is Some {
        let w = choose|w: int| 0 <= w < ds.len() && (#[trigger] ds[w]).battery is Some;
        assert(ds.contains(ds[w]));
        lemma_members_ms_contains(g, ds[w]);
        let j = choose|j: int| 0 <= j < g.len() && (#[trigger] g[j]).1.contains(ds[w]);
        let ss = crate::device_group::sort_by_score(g[j].1);
        lemma_sort_by_score_same(g[j].1, ds[w]);
        assert(ss.contains(ds[w]));
        let k = choose|k: int| 0 <= k < ss.len() && ss[k] == ds[w];
        lemma_first_battery_some(ss, 0);
        assert(m[j].battery is Some);
        assert(m.contains(m[j]));
        lemma_sort_by_id_same(m, m[j]);
        let i = choose|i: int| 0 <= i < out.len() && out[i] == m[j];
        assert(out[i].battery is Some);
    }
}


/// Collapsing keeps a bound Precision driver visible: some shown device
/// reports the driver bound exactly when some node given was bound, and a
/// device shown as unbound comes from nodes of which none was bound.
pub proof fn law_collapse_keeps_bound_driver(ds: Seq<DeviceView>)
    ensures
        (exists|i: int|
            0 <= i < crate::device_group::collapse(ds).len() && (#[trigger] crate::device_group::collapse(
                ds,
            )[i]).driver_bound == Some(true)) <==> (exists|j: int|
            0 <= j < ds.len() && (#[trigger] ds[j]).driver_bound == Some(true)),
        forall|i: int|
            0 <= i < crate::device_group::collapse(ds).len() && (#[trigger] crate::device_group::collapse(
                ds,
            )[i]).driver_bound == Some(false) ==> exists|j: int|
                0 <= j < ds.len() && (#[trigger] ds[j]).driver_bound == Some(false),
{
    if ds.len() > 1 {
        let g = second_pass(first_pass(ds));
        let m = crate::device_group::merge_all(g);
        let out = crate::device_group::collapse(ds);
        assert(out == crate::device_group::sort_by_id(m));
        law_grouping_keeps_every_device(ds);
        ds.to_multiset_ensures();
        assert forall|i: int| 0 <= i < out.len() implies #[trigger] from_group(out[i], g) by {
            assert(out.contains(out[i]));
            lemma_sort_by_id_same(m, out[i]);
            let j = choose|j: int| 0 <= j < m.len() && m[j] == out[i];
            assert(m[j] == crate::device_group::merge(g[j].0, crate::device_group::sort_by_score(g[j].1)));
        }
        // A shown device that is bound or unbound has a node saying so.
        assert forall|i: int|
            0 <= i < out.len() && (#[trigger] out[i]).driver_bound == Some(true) implies exists|j: int|
            0 <= j < ds.len() && (#[trigger] ds[j]).driver_bound == Some(true) by {
            assert(from_group(out[i], g));
            let j = choose|j: int|
                0 <= j < g.len() && out[i] == crate::device_group::merge(
                    (#[trigger] g[j]).0,
                    crate::device_group::sort_by_score(g[j].1),
                );
            let ss = crate::device_group::sort_by_score(g[j].1);
            crate::device_group::law_merge_bound_driver_wins(g[j].0, ss);
            let k = choose|k: int| 0 <= k < ss.len() && (#[trigger] ss[k]).driver_bound == Some(true);
            assert(ss.contains(ss[k]));
            lemma_sort_by_score_same(g[j].1, ss[k]);
            lemma_members_ms_contains(g, ss[k]);
            let w = choose|w: int| 0 <= w < ds.len() && ds[w] == ss[k];
            assert(ds[w].driver_bound == Some(true));
        }
        assert forall|i: int|
            0 <= i < out.len() && (#[trigger] out[i]).driver_bound == Some(false) implies exists|j: int|
            0 <= j < ds.len() && (#[trigger] ds[j]).driver_bound == Some(false) by {
            assert(from_group(out[i], g));
            let j = choose|j: int|
                0 <= j < g.len() && out[i] == crate::device_group::merge(
                    (#[trigger] g[j]).0,
                    crate::device_group::sort_by_score(g[j].1),
                );
            let ss = crate::device_group::sort_by_score(g[j].1);
            crate::device_group::law_merge_bound_driver_wins(g[j].0, ss);
            let k = choose|k: int| 0 <= k < ss.len() && (#[trigger] ss[k]).driver_bound == Some(false);
            assert(ss.contains(ss[k]));
            lemma_sort_by_score_same(g[j].1, ss[k]);
            lemma_members_ms_contains(g, ss[k]);
            let w = choose|w: int| 0 <= w < ds.len() && ds[w] == ss[k];
            assert(ds[w].driver_bound == Some(false));
        }
        if exists|w: int| 0 <= w < ds.len() && (#[trigger] ds[w]).driver_bound == Some(true) {
            let w = choose|w: int| 0 <= w < ds.len() && (#[trigger] ds[w]).driver_bound == Some(true);
            assert(ds.contains(ds[w]));
            lemma_members_ms_contains(g, ds[w]);
            let j = choose|j: int| 0 <= j < g.len() && (#[trigger] g[j]).1.contains(ds[w]);
            let ss = crate::device_group::sort_by_score(g[j].1);
            lemma_sort_by_score_same(g[j].1, ds[w]);
            assert(ss.contains(ds[w]));
            let k = choose|k: int| 0 <= k < ss.len() && ss[k] == ds[w];
            crate::device_group::law_merge_bound_driver_wins(g[j].0, ss);
            assert(m[j].driver_bound == Some(true));
            assert(m.contains(m[j]));
            lemma_sort_by_id_same(m, m[j]);
            let i = choose|i: int| 0 <= i < out.len() && out[i] == m[j];
            assert(out[i].driver_bound == Some(true));
        }
    }
}

} // verus!
