//! The calls that wait for an answer.

use vstd::prelude::*;

verus! {

/// One call that was sent and not yet answered.
#[derive(Clone, Copy, Debug, PartialEq, Eq, Structural)]
pub struct PendingRequest {
    /// The identifier under which the answer will come.
    pub id: u64,
    /// The instant, in the host's clock, after which the call has timed out.
    pub deadline: Option<u64>,
}

/// Whether `calls` holds a call with this identifier.
pub open spec fn has_id(calls: Seq<PendingRequest>, id: u64) -> bool {
    exists|i: int| 0 <= i < calls.len() && #[trigger] calls[i].id == id
}

/// Whether no two calls in `calls` share an identifier.
pub open spec fn distinct_ids(calls: Seq<PendingRequest>) -> bool {
    forall|i: int, j: int|
        0 <= i < j < calls.len() ==> #[trigger] calls[i].id != #[trigger] calls[j].id
}

/// An index at which `calls` holds the identifier `id`.
pub open spec fn slot_of(calls: Seq<PendingRequest>, id: u64) -> int {
    choose|i: int| 0 <= i < calls.len() && #[trigger] calls[i].id == id
}

/// The calls as a map from identifier to deadline.
pub open spec fn pending_map(calls: Seq<PendingRequest>) -> Map<u64, Option<u64>> {
    Map::new(|id: u64| has_id(calls, id), |id: u64| calls[slot_of(calls, id)].deadline)
}

/// Whether `ids` lists the identifiers of `pending`, each once.
pub open spec fn lists_exactly(ids: Seq<u64>, pending: Map<u64, Option<u64>>) -> bool {
    &&& ids.no_duplicates()
    &&& forall|id: u64| ids.contains(id) <==> pending.dom().contains(id)
}

/// Each call is found in the map under its identifier.
pub proof fn lemma_lookup(calls: Seq<PendingRequest>, i: int)
    requires
        distinct_ids(calls),
        0 <= i < calls.len(),
    ensures
        pending_map(calls).dom().contains(calls[i].id),
        pending_map(calls)[calls[i].id] == calls[i].deadline,
{
    let id = calls[i].id;
    assert(has_id(calls, id));
    let k = slot_of(calls, id);
    assert(calls[k].id == calls[i].id);
    assert(k == i);
}

/// Adding a call with a fresh identifier inserts it into the map.
pub proof fn lemma_push(calls: Seq<PendingRequest>, call: PendingRequest)
    requires
        distinct_ids(calls),
        !has_id(calls, call.id),
    ensures
        distinct_ids(calls.push(call)),
        pending_map(calls.push(call)) == pending_map(calls).insert(call.id, call.deadline),
{
    let more = calls.push(call);
    assert forall|i: int, j: int| 0 <= i < j < more.len() implies #[trigger] more[i].id
        != #[trigger] more[j].id by {
        if j == calls.len() {
            assert(calls[i].id == more[i].id);
        } else {
            assert(calls[i].id == more[i].id && calls[j].id == more[j].id);
        }
    }
    let wanted = pending_map(calls).insert(call.id, call.deadline);
    assert forall|id: u64| pending_map(more).dom().contains(id) <==> wanted.dom().contains(
        id,
    ) by {
        if has_id(more, id) {
            let k = slot_of(more, id);
            if k < calls.len() {
                assert(calls[k].id == id);
            }
        }
        if has_id(calls, id) {
            let k = slot_of(calls, id);
            assert(more[k].id == id);
        }
        if id == call.id {
            assert(more[calls.len() as int].id == id);
        }
    }
    assert forall|id: u64| pending_map(more).dom().contains(id) implies pending_map(more)[id]
        == wanted[id] by {
        let k = slot_of(more, id);
        lemma_lookup(more, k);
        if k < calls.len() {
            assert(calls[k].id == id);
            lemma_lookup(calls, k);
        }
    }
    assert(pending_map(more) =~= wanted);
}

/// Taking a call out removes its identifier from the map.
pub proof fn lemma_remove(calls: Seq<PendingRequest>, at: int)
    requires
        distinct_ids(calls),
        0 <= at < calls.len(),
    ensures
        distinct_ids(calls.remove(at)),
        pending_map(calls.remove(at)) == pending_map(calls).remove(calls[at].id),
{
    let fewer = calls.remove(at);
    let gone = calls[at].id;
    assert forall|i: int| 0 <= i < fewer.len() implies #[trigger] fewer[i] == calls[if i
        < at {
        i
    } else {
        i + 1
    }] by {}
    assert forall|i: int, j: int| 0 <= i < j < fewer.len() implies #[trigger] fewer[i].id
        != #[trigger] fewer[j].id by {
        let a = if i < at { i } else { i + 1 };
        let b = if j < at { j } else { j + 1 };
        assert(fewer[i] == calls[a] && fewer[j] == calls[b]);
        assert(calls[a].id != calls[b].id);
    }
    let wanted = pending_map(calls).remove(gone);
    assert forall|id: u64| pending_map(fewer).dom().contains(id) <==> wanted.dom().contains(
        id,
    ) by {
        if has_id(fewer, id) {
            let k = slot_of(fewer, id);
            let a = if k < at { k } else { k + 1 };
            assert(fewer[k] == calls[a]);
            assert(calls[a].id == id);
            if id == gone {
                assert(calls[a].id == calls[at].id);
            }
        }
        if has_id(calls, id) && id != gone {
            let k = slot_of(calls, id);
            let a = if k < at { k } else { k - 1 };
            assert(fewer[a] == calls[k]);
            assert(fewer[a].id == id);
        }
    }
    assert forall|id: u64| pending_map(fewer).dom().contains(id) implies pending_map(
        fewer,
    )[id] == wanted[id] by {
        let k = slot_of(fewer, id);
        let a = if k < at { k } else { k + 1 };
        assert(fewer[k] == calls[a]);
        lemma_lookup(fewer, k);
        lemma_lookup(calls, a);
    }
    assert(pending_map(fewer) =~= wanted);
}

/// The index of the call with this identifier, if `calls` holds one.
pub(crate) fn find_call(calls: &Vec<PendingRequest>, id: u64) -> (res: Option<usize>)
    ensures
        match res {
            Some(i) => i < calls@.len() && calls@[i as int].id == id,
            None => !has_id(calls@, id),
        },
{
    let mut i: usize = 0;
    while i < calls.len()
        invariant
            i <= calls@.len(),
            forall|j: int| 0 <= j < i ==> #[trigger] calls@[j].id != id,
        decreases calls@.len() - i,
    {
        if calls[i].id == id {
            return Some(i);
        }
        i += 1;
    }
    None
}

/// Empties `calls` and hands back the identifiers it held.
pub(crate) fn take_ids(calls: &mut Vec<PendingRequest>) -> (ids: Vec<u64>)
    requires
        distinct_ids(old(calls)@),
    ensures
        final(calls)@ == Seq::<PendingRequest>::empty(),
        lists_exactly(ids@, pending_map(old(calls)@)),
        ids@.len() == old(calls)@.len(),
{
    let mut ids: Vec<u64> = Vec::new();
    let mut i: usize = 0;
    while i < calls.len()
        invariant
            i <= calls@.len(),
            calls@ == old(calls)@,
            ids@.len() == i,
            forall|j: int| 0 <= j < i ==> #[trigger] ids@[j] == calls@[j].id,
        decreases calls@.len() - i,
    {
        ids.push(calls[i].id);
        i += 1;
    }
    proof {
        let held = calls@;
        assert forall|a: int, b: int| 0 <= a < ids@.len() && 0 <= b < ids@.len() && a
            != b implies ids@[a] != ids@[b] by {
            assert(ids@[a] == held[a].id && ids@[b] == held[b].id);
            if a < b {
                assert(held[a].id != held[b].id);
            } else {
                assert(held[b].id != held[a].id);
            }
        }
        assert forall|id: u64| ids@.contains(id) <==> pending_map(held).dom().contains(
            id,
        ) by {
            if ids@.contains(id) {
                let k = choose|k: int| 0 <= k < ids@.len() && ids@[k] == id;
                assert(held[k].id == id);
            }
            if has_id(held, id) {
                let k = slot_of(held, id);
                assert(ids@[k] == id);
            }
        }
    }
    calls.clear();
    ids
}

/// Whether a deadline has passed at the instant `now`.
pub open spec fn is_due(deadline: Option<u64>, now: u64) -> bool {
    match deadline {
        Some(at) => at <= now,
        None => false,
    }
}

/// The calls of `pending` whose deadline has not passed at `now`.
pub open spec fn not_yet_due(pending: Map<u64, Option<u64>>, now: u64) -> Map<
    u64,
    Option<u64>,
> {
    Map::new(
        |id: u64| pending.dom().contains(id) && !is_due(pending[id], now),
        |id: u64| pending[id],
    )
}

/// Whether `ids` lists the calls of `pending` whose deadline has passed at
/// `now`, each once.
pub open spec fn lists_overdue(ids: Seq<u64>, pending: Map<u64, Option<u64>>, now: u64) -> bool {
    &&& ids.no_duplicates()
    &&& forall|id: u64|
        ids.contains(id) <==> pending.dom().contains(id) && is_due(pending[id], now)
}

/// Takes out of `calls` those whose deadline has passed at `now`, and hands
/// back their identifiers. The others stay.
pub(crate) fn take_due(calls: &mut Vec<PendingRequest>, now: u64) -> (ids: Vec<u64>)
    requires
        distinct_ids(old(calls)@),
    ensures
        distinct_ids(final(calls)@),
        pending_map(final(calls)@) == not_yet_due(pending_map(old(calls)@), now),
        lists_overdue(ids@, pending_map(old(calls)@), now),
{
    let mut kept: Vec<PendingRequest> = Vec::new();
    let mut ids: Vec<u64> = Vec::new();
    let mut i: usize = 0;
    while i < calls.len()
        invariant
            i <= calls@.len(),
            calls@ == old(calls)@,
            distinct_ids(calls@),
            distinct_ids(kept@),
            ids@.no_duplicates(),
            forall|j: int|
                0 <= j < kept@.len() ==> !is_due((#[trigger] kept@[j]).deadline, now)
                    && calls@.take(i as int).contains(kept@[j]),
            forall|k: int|
                0 <= k < i && !is_due((#[trigger] calls@[k]).deadline, now) ==> kept@.contains(
                    calls@[k],
                ),
            forall|j: int|
                0 <= j < ids@.len() ==> calls@.take(i as int).contains(
                    PendingRequest { id: #[trigger] ids@[j], deadline: pending_map(calls@)[ids@[j]] },
                ) && is_due(pending_map(calls@)[ids@[j]], now),
            forall|k: int|
                0 <= k < i && is_due((#[trigger] calls@[k]).deadline, now) ==> ids@.contains(
                    calls@[k].id,
                ),
        decreases calls@.len() - i,
    {
        let call = calls[i];
        let ghost seen = calls@.take(i as int);
        let ghost more = calls@.take(i + 1);
        proof {
            lemma_lookup(calls@, i as int);
            assert(more[i as int] == call);
            assert forall|c: PendingRequest| seen.contains(c) implies more.contains(c) && c.id
                != call.id by {
                let k = choose|k: int| 0 <= k < seen.len() && seen[k] == c;
                assert(more[k] == c);
                assert(calls@[k].id != calls@[i as int].id);
            }
        }
        let due = match call.deadline {
            Some(limit) => limit <= now,
            None => false,
        };
        if due {
            proof {
                if ids@.contains(call.id) {
                    let j = choose|j: int| 0 <= j < ids@.len() && ids@[j] == call.id;
                    assert(seen.contains(
                        PendingRequest { id: ids@[j], deadline: pending_map(calls@)[ids@[j]] },
                    ));
                }
            }
            let ghost listed = ids@;
            ids.push(call.id);
            proof {
                assert(ids@.last() == call.id);
                assert forall|k: int|
                    0 <= k < i + 1 && is_due((#[trigger] calls@[k]).deadline, now) implies ids@.contains(
                    calls@[k].id,
                ) by {
                    if k < i {
                        assert(listed.contains(calls@[k].id));
                        let j = choose|j: int| 0 <= j < listed.len() && listed[j] == calls@[k].id;
                        assert(ids@[j] == calls@[k].id);
                    } else {
                        assert(ids@[ids@.len() - 1] == calls@[k].id);
                    }
                }
            }
        } else {
            proof {
                if has_id(kept@, call.id) {
                    let j = slot_of(kept@, call.id);
                    assert(seen.contains(kept@[j]));
                }
                lemma_push(kept@, call);
            }
            let ghost stayed = kept@;
            kept.push(call);
            proof {
                assert(kept@.last() == call);
                assert forall|k: int|
                    0 <= k < i + 1 && !is_due((#[trigger] calls@[k]).deadline, now) implies kept@.contains(
                    calls@[k],
                ) by {
                    if k < i {
                        assert(stayed.contains(calls@[k]));
                        let j = choose|j: int| 0 <= j < stayed.len() && stayed[j] == calls@[k];
                        assert(kept@[j] == calls@[k]);
                    } else {
                        assert(kept@[kept@.len() - 1] == calls@[k]);
                    }
                }
            }
        }
        i += 1;
    }
    proof {
        let held = calls@;
        assert(held.take(i as int) =~= held);
        let wanted = not_yet_due(pending_map(held), now);
        assert forall|id: u64| pending_map(kept@).dom().contains(id) <==> wanted.dom().contains(
            id,
        ) by {
            if has_id(kept@, id) {
                let j = slot_of(kept@, id);
                let k = choose|k: int| 0 <= k < held.len() && held[k] == kept@[j];
                lemma_lookup(held, k);
            }
            if wanted.dom().contains(id) {
                let k = slot_of(held, id);
                lemma_lookup(held, k);
                let j = choose|j: int| 0 <= j < kept@.len() && kept@[j] == held[k];
                assert(kept@[j].id == id);
            }
        }
        assert forall|id: u64| pending_map(kept@).dom().contains(id) implies pending_map(
            kept@,
        )[id] == wanted[id] by {
            let j = slot_of(kept@, id);
            lemma_lookup(kept@, j);
            let k = choose|k: int| 0 <= k < held.len() && held[k] == kept@[j];
            lemma_lookup(held, k);
        }
        assert(pending_map(kept@) =~= wanted);
        assert forall|id: u64|
            ids@.contains(id) <==> pending_map(held).dom().contains(id) && is_due(
                pending_map(held)[id],
                now,
            ) by {
            if ids@.contains(id) {
                let j = choose|j: int| 0 <= j < ids@.len() && ids@[j] == id;
                let c = PendingRequest { id: ids@[j], deadline: pending_map(held)[ids@[j]] };
                let k = choose|k: int| 0 <= k < held.len() && held[k] == c;
                lemma_lookup(held, k);
            }
            if has_id(held, id) {
                let k = slot_of(held, id);
                lemma_lookup(held, k);
            }
        }
    }
    *calls = kept;
    ids
}

} // verus!
