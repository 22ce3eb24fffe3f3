//! The general laws of the registry, each proved once and for all over
//! the spec functions that the operations' contracts speak of.

use vstd::prelude::*;

use crate::registry::{
    blank_records, collect_records, distinct_identities, extend_unique, slot_of,
};
use crate::types::{HackerInfo, Identity};

verus! {

/// A newly appended identity resolves to the slot it was inserted at:
/// the length of the whitelist before the append. Since the whitelist
/// starts with the reserved entry at index 0 and grows by one per add,
/// that slot is the identity's 1-based insertion order.
pub proof fn lemma_new_identity_gets_next_slot(wl: Seq<Identity>, who: Identity)
    ensures
        slot_of(wl.push(who), who) == wl.len(),
{
    assert(wl.push(who).last() == who);
}

/// A resolved slot is stable: whatever a duplicate-free whitelist is
/// later extended to, an identity already present keeps the slot it
/// had.
pub proof fn lemma_slot_stable_under_append(wl1: Seq<Identity>, wl2: Seq<Identity>, who: Identity)
    requires
        distinct_identities(wl2),
        wl1.is_prefix_of(wl2),
        wl1.contains(who),
    ensures
        slot_of(wl2, who) == slot_of(wl1, who),
{
    crate::registry::lemma_slot_of_props(wl1, who);
    let s1 = slot_of(wl1, who);
    assert(wl2[s1] == who);
    assert(distinct_identities(wl1)) by {
        assert forall|i: int, j: int| 0 <= i < j < wl1.len() implies wl1[i] != wl1[j] by {
            assert(wl1[i] == wl2[i]);
            assert(wl1[j] == wl2[j]);
        }
    }
    crate::registry::lemma_slot_of_unique(wl2, who, s1);
}

/// A batch add keeps the whitelist duplicate-free and extends it
/// conservatively: the old whitelist stays as a prefix, an identity is
/// listed afterwards exactly when it was listed before or stood in the
/// batch, and at most one entry is appended per batch element.
pub proof fn lemma_batch_adds_each_new_identity_once(wl: Seq<Identity>, ids: Seq<Identity>)
    requires
        distinct_identities(wl),
    ensures
        distinct_identities(extend_unique(wl, ids)),
        wl.is_prefix_of(extend_unique(wl, ids)),
        forall|x: Identity|
            extend_unique(wl, ids).contains(x) <==> (wl.contains(x) || ids.contains(x)),
        wl.len() <= extend_unique(wl, ids).len() <= wl.len() + ids.len(),
    decreases ids.len(),
{
    if ids.len() == 0 {
        assert(extend_unique(wl, ids) == wl);
        assert(wl.is_prefix_of(wl)) by {
            assert(wl =~= wl.subrange(0, wl.len() as int));
        }
        assert forall|x: Identity| wl.contains(x) <==> (wl.contains(x) || ids.contains(x)) by {
            if ids.contains(x) {
                let w = choose|i: int| 0 <= i < ids.len() && ids[i] == x;
            }
        }
    } else {
        let front = ids.drop_last();
        let last = ids.last();
        lemma_batch_adds_each_new_identity_once(wl, front);
        let prev = extend_unique(wl, front);
        let ext = extend_unique(wl, ids);
        assert forall|x: Identity| ids.contains(x) <==> (front.contains(x) || x == last) by {
            if ids.contains(x) {
                let w = choose|i: int| 0 <= i < ids.len() && ids[i] == x;
                if w < ids.len() - 1 {
                    assert(front[w] == x);
                }
            }
            if front.contains(x) {
                let w = choose|i: int| 0 <= i < front.len() && front[i] == x;
                assert(ids[w] == x);
            }
            if x == last {
                assert(ids[ids.len() - 1] == x);
            }
        }
        if prev.contains(last) {
            assert(ext == prev);
        } else {
            assert(ext == prev.push(last));
            assert forall|x: Identity| ext.contains(x) <==> (prev.contains(x) || x == last) by {
                if ext.contains(x) {
                    let w = choose|i: int| 0 <= i < ext.len() && ext[i] == x;
                    if w < ext.len() - 1 {
                        assert(prev[w] == x);
                    }
                }
                if prev.contains(x) {
                    let w = choose|i: int| 0 <= i < prev.len() && prev[i] == x;
                    assert(ext[w] == x);
                }
                if x == last {
                    assert(ext[ext.len() - 1] == x);
                }
            }
            assert forall|i: int, j: int| 0 <= i < j < ext.len() implies ext[i] != ext[j] by {
                if j == ext.len() - 1 {
                    assert(prev[i] == ext[i]);
                    assert(prev.contains(ext[i]));
                }
            }
            assert(wl.is_prefix_of(ext)) by {
                assert(wl =~= ext.subrange(0, wl.len() as int));
            }
        }
    }
}

/// A batch whose identities are pairwise distinct and all new appends
/// them all, in order: the whitelist afterwards is the old whitelist
/// followed by the batch, so its length grows by exactly the size of
/// the batch.
pub proof fn lemma_batch_of_new_identities_appends_all(wl: Seq<Identity>, ids: Seq<Identity>)
    requires
        distinct_identities(ids),
        forall|x: Identity| ids.contains(x) ==> !wl.contains(x),
    ensures
        extend_unique(wl, ids) == wl + ids,
    decreases ids.len(),
{
    if ids.len() == 0 {
        assert(extend_unique(wl, ids) =~= wl + ids);
    } else {
        let front = ids.drop_last();
        let last = ids.last();
        assert(distinct_identities(front));
        assert forall|x: Identity| front.contains(x) implies !wl.contains(x) by {
            let w = choose|i: int| 0 <= i < front.len() && front[i] == x;
            assert(ids[w] == x);
            assert(ids.contains(x));
        }
        lemma_batch_of_new_identities_appends_all(wl, front);
        let prev = wl + front;
        assert(!prev.contains(last)) by {
            if prev.contains(last) {
                let w = choose|i: int| 0 <= i < prev.len() && prev[i] == last;
                if w < wl.len() {
                    assert(wl[w] == last);
                    assert(ids[ids.len() - 1] == last);
                    assert(ids.contains(last));
                } else {
                    assert(front[w - wl.len()] == last);
                    assert(ids[w - wl.len()] == last);
                }
            }
        }
        assert(extend_unique(wl, ids) == prev.push(last));
        assert(prev.push(last) =~= wl + ids);
    }
}

/// Before any submission nothing is listed: a record store holding only
/// empty slots collects to the empty sequence.
pub proof fn lemma_no_records_listed_when_none_submitted(rs: Seq<Option<HackerInfo>>)
    requires
        forall|j: int| 0 <= j < rs.len() ==> rs[j] is None,
    ensures
        collect_records(rs).len() == 0,
    decreases rs.len(),
{
    if rs.len() > 0 {
        lemma_no_records_listed_when_none_submitted(rs.drop_last());
    }
}

/// Whitelisting alone changes no listing: appending empty slots to the
/// record store leaves the collected records as they were.
pub proof fn lemma_whitelisting_adds_no_record(rs: Seq<Option<HackerInfo>>, n: int)
    requires
        0 <= n,
    ensures
        collect_records(rs + blank_records(n)) == collect_records(rs),
    decreases n,
{
    if n == 0 {
        assert(rs + blank_records(0) =~= rs);
    } else {
        let whole = rs + blank_records(n);
        assert(whole.last() is None);
        assert(whole.drop_last() =~= rs + blank_records(n - 1));
        lemma_whitelisting_adds_no_record(rs, n - 1);
    }
}

/// A record store holding exactly one submission lists exactly that
/// submission.
pub proof fn lemma_single_record_listed_alone(rs: Seq<Option<HackerInfo>>, k: int, info: HackerInfo)
    requires
        0 <= k < rs.len(),
        rs[k] == Some(info),
        forall|j: int| 0 <= j < rs.len() && j != k ==> rs[j] is None,
    ensures
        collect_records(rs) == seq![info],
    decreases rs.len(),
{
    if k == rs.len() - 1 {
        lemma_no_records_listed_when_none_submitted(rs.drop_last());
        assert(collect_records(rs) =~= seq![info]);
    } else {
        assert(rs.last() is None);
        lemma_single_record_listed_alone(rs.drop_last(), k, info);
    }
}

/// How many records the slots below `k` hold; the listing position a
/// record stored at slot `k` appears at.
pub open spec fn listed_position(rs: Seq<Option<HackerInfo>>, k: int) -> int {
    collect_records(rs.take(k)).len() as int
}

/// A slot holding a record is listed: its listing position lies
/// strictly inside the collected sequence.
proof fn lemma_listed_position_in_range(rs: Seq<Option<HackerInfo>>, k: int)
    requires
        0 <= k < rs.len(),
        rs[k] is Some,
    ensures
        0 <= listed_position(rs, k) < collect_records(rs).len(),
    decreases rs.len(),
{
    if k == rs.len() - 1 {
        assert(rs.take(k) =~= rs.drop_last());
    } else {
        assert(rs.take(k) =~= rs.drop_last().take(k));
        lemma_listed_position_in_range(rs.drop_last(), k);
    }
}

/// Resubmitting under an occupied slot overwrites in place: the
/// collected listing keeps its length, and only the entry at the
/// slot's listing position changes, to the new record.
pub proof fn lemma_resubmission_overwrites_in_place(
    rs: Seq<Option<HackerInfo>>,
    k: int,
    info: HackerInfo,
)
    requires
        0 <= k < rs.len(),
        rs[k] is Some,
    ensures
        collect_records(rs.update(k, Some(info))).len() == collect_records(rs).len(),
        collect_records(rs.update(k, Some(info))) == collect_records(rs).update(
            listed_position(rs, k),
            info,
        ),
    decreases rs.len(),
{
    let upd = rs.update(k, Some(info));
    lemma_listed_position_in_range(rs, k);
    if k == rs.len() - 1 {
        assert(upd.drop_last() =~= rs.drop_last());
        assert(upd.last() == Some(info));
        assert(rs.take(k) =~= rs.drop_last());
        let x = rs.last()->Some_0;
        assert(collect_records(rs) == collect_records(rs.drop_last()).push(x));
        assert(collect_records(upd) =~= collect_records(rs).update(listed_position(rs, k), info));
    } else {
        assert(upd.drop_last() =~= rs.drop_last().update(k, Some(info)));
        assert(upd.last() == rs.last());
        assert(rs.take(k) =~= rs.drop_last().take(k));
        lemma_resubmission_overwrites_in_place(rs.drop_last(), k, info);
        lemma_listed_position_in_range(rs.drop_last(), k);
        let pos = listed_position(rs, k);
        if rs.last() is Some {
            let y = rs.last()->Some_0;
            assert(collect_records(upd) == collect_records(upd.drop_last()).push(y));
            assert(collect_records(upd.drop_last()) == collect_records(rs.drop_last()).update(
                pos,
                info,
            ));
            assert(collect_records(rs.drop_last()).update(pos, info).push(y) =~= collect_records(
                rs.drop_last(),
            ).push(y).update(pos, info));
        }
    }
}

} // verus!
