//! What holds of every session, stated over the values of sessions and the
//! steps that the session's methods take.

use vstd::prelude::*;
use crate::message::{Dispatch, Message};
use crate::pending::not_yet_due;
use crate::registry::{
    distinct_names, first_of_each, has_name, lemma_first_of_each_identity,
    lemma_first_of_each_names, ToolDescriptor,
};
use crate::session::{CallError, FramingMode, SessionState, SessionView};

verus! {

/// Whether `msg` is the result or the failure of the call `id`.
pub open spec fn answers_call(msg: Message, id: u64) -> bool {
    match msg {
        Message::Response { id: answered, .. } => answered == id,
        Message::Error { id: answered, .. } => answered == id,
        _ => false,
    }
}

/// The answers to the calls `ids`, in that order of arrival, each with the
/// result of the same index.
pub open spec fn answers(ids: Seq<u64>, results: Seq<Vec<u8>>) -> Seq<Message> {
    Seq::new(ids.len(), |k: int| Message::Response { id: ids[k], result: results[k] })
}

/// The session after the messages `msgs` arrived one after the other.
pub open spec fn after_all(s: SessionView, msgs: Seq<Message>) -> SessionView
    decreases msgs.len(),
{
    if msgs.len() == 0 {
        s
    } else {
        after_all(s, msgs.drop_last()).after_dispatch(msgs.last())
    }
}

/// A session whose child starts, and whose handshake is completed, is ready
/// and lists the tools that the child advertised: every advertised name,
/// each once, and the advertised list itself where that names no tool twice.
pub proof fn theorem_handshake_lists_advertised_tools(
    s: SessionView,
    advertised: Seq<ToolDescriptor>,
)
    requires
        s.wf(),
        s.state == SessionState::Starting,
        s.next_id < u64::MAX,
    ensures
        s.after_spawn().state == SessionState::Handshaking,
        s.after_spawn().after_handshake(advertised).wf(),
        s.after_spawn().after_handshake(advertised).state == SessionState::Ready,
        s.after_spawn().after_handshake(advertised).tools == first_of_each(advertised),
        distinct_names(s.after_spawn().after_handshake(advertised).tools),
        forall|name: Seq<char>|
            has_name(s.after_spawn().after_handshake(advertised).tools, name) <==> has_name(
                advertised,
                name,
            ),
        distinct_names(advertised) ==> s.after_spawn().after_handshake(advertised).tools
            == advertised,
{
    lemma_first_of_each_names(advertised);
    if distinct_names(advertised) {
        lemma_first_of_each_identity(advertised);
    }
}

/// Where the first `upto` answers of `answers(ids, results)` have arrived,
/// exactly their calls have left the books, and nothing else has changed.
pub proof fn lemma_after_answers(s: SessionView, ids: Seq<u64>, results: Seq<Vec<u8>>, upto: int)
    requires
        s.wf(),
        ids.no_duplicates(),
        results.len() == ids.len(),
        forall|k: int| 0 <= k < ids.len() ==> s.pending.dom().contains(#[trigger] ids[k]),
        0 <= upto <= ids.len(),
    ensures
        after_all(s, answers(ids, results).take(upto)) == (SessionView {
            pending: s.pending.remove_keys(ids.take(upto).to_set()),
            ..s
        }),
    decreases upto,
{
    let msgs = answers(ids, results);
    if upto == 0 {
        assert(s.pending.remove_keys(ids.take(0).to_set()) =~= s.pending);
    } else {
        lemma_after_answers(s, ids, results, upto - 1);
        let seen = msgs.take(upto);
        assert(seen.drop_last() =~= msgs.take(upto - 1));
        assert(seen.last() == msgs[upto - 1]);
        let id = ids[upto - 1];
        let earlier = ids.take(upto - 1);
        let through = ids.take(upto);
        let before = s.pending.remove_keys(earlier.to_set());
        assert(!earlier.to_set().contains(id)) by {
            if earlier.contains(id) {
                let j = choose|j: int| 0 <= j < earlier.len() && earlier[j] == id;
                assert(ids[j] == ids[upto - 1]);
            }
        }
        assert(before.dom().contains(id));
        assert forall|other: u64|
            through.to_set().contains(other) <==> (other == id || earlier.to_set().contains(
                other,
            )) by {
            if through.contains(other) {
                let j = choose|j: int| 0 <= j < through.len() && through[j] == other;
                if j < upto - 1 {
                    assert(earlier[j] == other);
                }
            }
            if earlier.contains(other) {
                let j = choose|j: int| 0 <= j < earlier.len() && earlier[j] == other;
                assert(through[j] == other);
            }
            if other == id {
                assert(through[upto - 1] == other);
            }
        }
        assert(before.remove(id) =~= s.pending.remove_keys(through.to_set()));
    }
}

/// However the answers to outstanding calls are ordered on arrival, each
/// answer resolves the call that carries its identifier, with its own
/// result; afterwards exactly the answered calls have left the books. A
/// second answer to any of them is dropped: a call is resolved once.
pub proof fn theorem_answers_reach_their_calls(
    s: SessionView,
    ids: Seq<u64>,
    results: Seq<Vec<u8>>,
    late: Vec<u8>,
)
    requires
        s.wf(),
        ids.no_duplicates(),
        results.len() == ids.len(),
        forall|k: int| 0 <= k < ids.len() ==> s.pending.dom().contains(#[trigger] ids[k]),
    ensures
        forall|k: int|
            0 <= k < ids.len() ==> after_all(s, answers(ids, results).take(k)).dispatched(
                #[trigger] answers(ids, results)[k],
            ) == (Dispatch::Resolved { id: ids[k], result: results[k] }),
        after_all(s, answers(ids, results)) == (SessionView {
            pending: s.pending.remove_keys(ids.to_set()),
            ..s
        }),
        forall|k: int|
            0 <= k < ids.len() ==> after_all(s, answers(ids, results)).dispatched(
                Message::Response { id: #[trigger] ids[k], result: late },
            ) == Dispatch::Dropped,
{
    let msgs = answers(ids, results);
    assert forall|k: int| 0 <= k < ids.len() implies after_all(s, msgs.take(k)).dispatched(
        #[trigger] msgs[k],
    ) == (Dispatch::Resolved { id: ids[k], result: results[k] }) by {
        lemma_after_answers(s, ids, results, k);
        let earlier = ids.take(k);
        if earlier.contains(ids[k]) {
            let j = choose|j: int| 0 <= j < earlier.len() && earlier[j] == ids[k];
            assert(ids[j] == ids[k]);
        }
    }
    lemma_after_answers(s, ids, results, ids.len() as int);
    assert(msgs.take(ids.len() as int) =~= msgs);
    assert(ids.take(ids.len() as int) =~= ids);
    assert forall|k: int| 0 <= k < ids.len() implies after_all(
        s,
        msgs,
    ).dispatched(Message::Response { id: #[trigger] ids[k], result: late })
        == Dispatch::Dropped by {
        assert(ids.contains(ids[k]));
        assert(s.handshake_id.is_none());
    }
}

/// The session after calls of `tools` were asked for one after the other,
/// the call of index `k` with the deadline `deadlines[k]`.
pub open spec fn after_calls(
    s: SessionView,
    tools: Seq<Seq<char>>,
    deadlines: Seq<Option<u64>>,
) -> SessionView
    decreases tools.len(),
{
    if tools.len() == 0 {
        s
    } else {
        after_calls(s, tools.drop_last(), deadlines.drop_last()).after_call(
            tools.last(),
            deadlines.last(),
        )
    }
}

/// Calls of advertised tools, asked of a ready session one after the other,
/// are all sent, under consecutive identifiers, and are all outstanding
/// afterwards, each with its own deadline, beside the calls that were
/// outstanding before.
pub proof fn theorem_calls_are_all_outstanding(
    s: SessionView,
    tools: Seq<Seq<char>>,
    deadlines: Seq<Option<u64>>,
)
    requires
        s.wf(),
        s.state == SessionState::Ready,
        deadlines.len() == tools.len(),
        s.next_id + tools.len() <= u64::MAX,
        forall|k: int| 0 <= k < tools.len() ==> has_name(s.tools, #[trigger] tools[k]),
    ensures
        after_calls(s, tools, deadlines).wf(),
        after_calls(s, tools, deadlines).state == SessionState::Ready,
        after_calls(s, tools, deadlines).tools == s.tools,
        after_calls(s, tools, deadlines).next_id == s.next_id + tools.len(),
        forall|k: int|
            0 <= k < tools.len() ==> after_calls(
                s,
                tools.take(k),
                deadlines.take(k),
            ).call_result(#[trigger] tools[k]) == Ok::<u64, CallError>((s.next_id + k) as u64),
        forall|k: int|
            #![trigger deadlines[k]]
            0 <= k < tools.len() ==> after_calls(s, tools, deadlines).pending.contains_pair(
                (s.next_id + k) as u64,
                deadlines[k],
            ),
        forall|id: u64|
            s.pending.dom().contains(id) ==> after_calls(s, tools, deadlines).pending.contains_pair(
                id,
                s.pending[id],
            ),
    decreases tools.len(),
{
    if tools.len() > 0 {
        let n = tools.len() - 1;
        let fewer = tools.drop_last();
        let fewer_deadlines = deadlines.drop_last();
        assert forall|k: int| 0 <= k < fewer.len() implies has_name(
            s.tools,
            #[trigger] fewer[k],
        ) by {
            assert(fewer[k] == tools[k]);
        }
        theorem_calls_are_all_outstanding(s, fewer, fewer_deadlines);
        let before = after_calls(s, fewer, fewer_deadlines);
        assert(before.call_result(tools.last()) == Ok::<u64, CallError>((s.next_id + n) as u64));
        assert forall|k: int| 0 <= k < tools.len() implies after_calls(
            s,
            tools.take(k),
            deadlines.take(k),
        ).call_result(#[trigger] tools[k]) == Ok::<u64, CallError>((s.next_id + k) as u64) by {
            if k < n {
                assert(tools.take(k) =~= fewer.take(k));
                assert(deadlines.take(k) =~= fewer_deadlines.take(k));
                assert(fewer[k] == tools[k]);
            } else {
                assert(tools.take(k) =~= fewer);
                assert(deadlines.take(k) =~= fewer_deadlines);
            }
        }
        assert forall|k: int|
            #![trigger deadlines[k]]
            0 <= k < tools.len() implies after_calls(s, tools, deadlines).pending.contains_pair(
            (s.next_id + k) as u64,
            deadlines[k],
        ) by {
            if k < n {
                assert(fewer_deadlines[k] == deadlines[k]);
            }
        }
    }
}

/// Two calls made one after the other travel under different identifiers,
/// and the second leaves the first outstanding.
pub proof fn theorem_calls_get_distinct_ids(
    s: SessionView,
    first_tool: Seq<char>,
    first_deadline: Option<u64>,
    second_tool: Seq<char>,
    second_deadline: Option<u64>,
)
    requires
        s.wf(),
        s.call_result(first_tool).is_ok(),
        s.after_call(first_tool, first_deadline).call_result(second_tool).is_ok(),
    ensures
        s.call_result(first_tool).unwrap() != s.after_call(
            first_tool,
            first_deadline,
        ).call_result(second_tool).unwrap(),
        !s.pending.dom().contains(s.call_result(first_tool).unwrap()),
        s.after_call(first_tool, first_deadline).after_call(
            second_tool,
            second_deadline,
        ).pending.dom().contains(s.call_result(first_tool).unwrap()),
        s.after_call(first_tool, first_deadline).after_call(
            second_tool,
            second_deadline,
        ).pending.dom().contains(
            s.after_call(first_tool, first_deadline).call_result(second_tool).unwrap(),
        ),
{
}

/// A call that was given up stays given up: an answer or a failure that
/// still arrives under its identifier is dropped and changes nothing, and no
/// later call gets that identifier.
pub proof fn theorem_cancelled_call_stays_cancelled(
    s: SessionView,
    id: u64,
    late: Message,
    tool: Seq<char>,
)
    requires
        s.wf(),
        s.pending.dom().contains(id),
        answers_call(late, id),
    ensures
        s.after_cancel(id).wf(),
        !s.after_cancel(id).pending.dom().contains(id),
        s.after_cancel(id).dispatched(late) == Dispatch::Dropped,
        s.after_cancel(id).after_dispatch(late) == s.after_cancel(id),
        s.after_cancel(id).call_result(tool) != Ok::<u64, CallError>(id),
{
    let c = s.after_cancel(id);
    if c.state != SessionState::Ready && c.state != SessionState::Draining {
        assert(c.pending =~= Map::<u64, Option<u64>>::empty());
    }
}

/// Identifiers are not given out twice: no step of a session lowers the
/// next identifier, every identifier in use lies below it, and a call gets
/// exactly it. Every step also leaves the session's books in order.
pub proof fn theorem_identifiers_never_return(
    s: SessionView,
    msg: Message,
    advertised: Seq<ToolDescriptor>,
    tool: Seq<char>,
    deadline: Option<u64>,
    id: u64,
    now: u64,
)
    requires
        s.wf(),
    ensures
        s.call_result(tool) matches Ok(fresh) ==> fresh == s.next_id && !s.pending.dom().contains(
            fresh,
        ),
        s.after_spawn().wf() && s.after_spawn().next_id >= s.next_id,
        s.after_spawn_failure().wf() && s.after_spawn_failure().next_id == s.next_id,
        s.after_handshake(advertised).wf() && s.after_handshake(advertised).next_id
            == s.next_id,
        s.after_handshake_timeout().wf() && s.after_handshake_timeout().next_id == s.next_id,
        s.after_call(tool, deadline).wf() && s.after_call(tool, deadline).next_id >= s.next_id,
        s.after_dispatch(msg).wf() && s.after_dispatch(msg).next_id == s.next_id,
        s.after_cancel(id).wf() && s.after_cancel(id).next_id == s.next_id,
        s.after_time_out(id, now).wf() && s.after_time_out(id, now).next_id == s.next_id,
        s.after_expiry(now).wf() && s.after_expiry(now).next_id == s.next_id,
        s.after_malformed_frame().wf() && s.after_malformed_frame().next_id == s.next_id,
        s.after_exit().wf() && s.after_exit().next_id == s.next_id,
        s.after_shutdown().wf() && s.after_shutdown().next_id == s.next_id,
        s.after_close().wf() && s.after_close().next_id == s.next_id,
{
    lemma_first_of_each_names(advertised);
    let nothing = Map::<u64, Option<u64>>::empty();
    if s.state != SessionState::Ready && s.state != SessionState::Draining {
        assert(s.pending.remove(id) =~= nothing);
        assert(not_yet_due(s.pending, now) =~= nothing);
        match msg {
            Message::Response { id: answered, .. } => {
                assert(s.pending.remove(answered) =~= nothing);
            },
            Message::Error { id: answered, .. } => {
                assert(s.pending.remove(answered) =~= nothing);
            },
            _ => {},
        }
    }
}

/// A frame that cannot be decoded leaves a lenient session as it was, and
/// makes a strict session that is still alive fail.
pub proof fn theorem_malformed_frame_by_mode(s: SessionView)
    requires
        s.wf(),
    ensures
        s.mode == FramingMode::Lenient ==> s.after_malformed_frame() == s,
        s.mode == FramingMode::Strict && !s.terminal() ==> s.after_malformed_frame().state
            == SessionState::Failed,
{
}

} // verus!
