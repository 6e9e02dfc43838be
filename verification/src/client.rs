//! The background multiplexer: the state machine that owns the transport,
//! tracks pending requests and live subscriptions, assigns and recycles
//! request IDs, dispatches incoming frames to the right waiter, and
//! propagates fatal failures to every outstanding waiter.
//!
//! The multiplexer is pure: each operation consumes one frontend command or
//! one inbound frame and returns the actions an I/O loop around it must
//! perform — frames to write to the transport, replies to deliver to
//! callers. A caller is named by an opaque token it supplied with its
//! command; a reply action names the token it resolves.

use vstd::prelude::*;
use crate::error::Error;
use crate::ids::IdAllocator;
use crate::json::{spec_text, JsonValue};
use crate::request::{
    id_jsonv, method_call_jsonv, notification_jsonv, Id, IdV, MethodCall, MethodCallV,
    Notification, NotificationV, Params, ParamsV, Version,
};
use crate::response::{
    FrameDecode, FrameDecodeV, Incoming, IncomingV, ReplyOutcome, ReplyOutcomeV, Response,
    ResponseV, SubNotif, SubNotifV,
};
use vstd::string::StringExecFns;

verus! {

broadcast use vstd::std_specs::vec::group_vec_axioms, vstd::seq::group_seq_axioms;

/// A waiter: what the multiplexer owes for one outstanding request ID.
#[derive(Debug)]
pub enum Pending {
    /// A single method call awaiting one reply.
    Single {
        /// The caller's token.
        token: u64,
    },
    /// A subscribe call awaiting its confirmation.
    Subscribe {
        /// The caller's token.
        token: u64,
        /// The method that will tear the subscription down.
        unsub_method: String,
    },
    /// One slot of a batch.
    InBatch {
        /// Index into the batch table.
        batch: usize,
        /// The slot within that batch, in caller-input order.
        slot: usize,
    },
}

/// The record of one outstanding batch.
pub struct BatchEntry {
    /// The caller's token.
    pub token: u64,
    /// The request ID assigned to each call, in caller-input order.
    pub ids: Vec<u64>,
    /// The outcome received for each slot so far, in caller-input order.
    pub results: Vec<Option<ReplyOutcome>>,
    /// How many slots still await a reply.
    pub remaining: usize,
}

/// What the I/O loop around the multiplexer must do next.
#[derive(Debug)]
pub enum Action {
    /// Write this text payload to the transport.
    WriteFrame(String),
    /// Resolve the caller's pending call with the server's result.
    ReplySuccess {
        /// The caller's token.
        token: u64,
        /// The result payload.
        value: JsonValue,
    },
    /// Resolve the caller's pending call with an error.
    ReplyFailure {
        /// The caller's token.
        token: u64,
        /// The error.
        error: Error,
    },
    /// Resolve the caller's batch with one outcome per call, in caller order.
    ReplyBatch {
        /// The caller's token.
        token: u64,
        /// One outcome per call, in caller-input order.
        outcomes: Vec<ReplyOutcome>,
    },
    /// Resolve the caller's subscribe with a live subscription.
    SubscribeConfirmed {
        /// The caller's token.
        token: u64,
        /// The server-assigned subscription identifier.
        sub_id: Id,
    },
    /// Deliver a payload to the subscription's consumer.
    DeliverSub {
        /// The subscription the payload belongs to.
        sub_id: Id,
        /// The payload.
        payload: JsonValue,
    },
    /// Close the subscription's consumer stream.
    CloseSubscription {
        /// The subscription to close.
        sub_id: Id,
    },
}

/// How many of the slots in `rs` still await an outcome.
pub open spec fn count_vacant(rs: Seq<Option<ReplyOutcome>>) -> nat
    decreases rs.len(),
{
    if rs.len() == 0 {
        0
    } else {
        count_vacant(rs.drop_last()) + (if rs.last() is None {
            1nat
        } else {
            0nat
        })
    }
}

/// Filling one slot changes the vacancy count by exactly its difference.
proof fn lemma_count_vacant_update(rs: Seq<Option<ReplyOutcome>>, i: int, v: ReplyOutcome)
    requires
        0 <= i < rs.len(),
    ensures
        count_vacant(rs.update(i, Some(v))) == count_vacant(rs) - (if rs[i] is None {
            1int
        } else {
            0int
        }),
    decreases rs.len(),
{
    let t = rs.update(i, Some(v));
    if i == rs.len() - 1 {
        assert(t.drop_last() =~= rs.drop_last());
    } else {
        assert(t.drop_last() =~= rs.drop_last().update(i, Some(v)));
        lemma_count_vacant_update(rs.drop_last(), i, v);
    }
}

/// With no vacancy, every slot holds an outcome.
proof fn lemma_count_vacant_zero(rs: Seq<Option<ReplyOutcome>>)
    requires
        count_vacant(rs) == 0,
    ensures
        forall|i: int| 0 <= i < rs.len() ==> rs[i] is Some,
    decreases rs.len(),
{
    if rs.len() > 0 {
        lemma_count_vacant_zero(rs.drop_last());
        assert(forall|i: int|
            0 <= i < rs.len() - 1 ==> rs[i] == rs.drop_last()[i]);
    }
}

/// A run of vacant slots counts its length.
proof fn lemma_count_vacant_full(rs: Seq<Option<ReplyOutcome>>)
    requires
        forall|i: int| 0 <= i < rs.len() ==> rs[i] is None,
    ensures
        count_vacant(rs) == rs.len(),
    decreases rs.len(),
{
    if rs.len() > 0 {
        lemma_count_vacant_full(rs.drop_last());
    }
}

/// Two distinct vacant slots make the vacancy count at least two.
proof fn lemma_count_vacant_two(rs: Seq<Option<ReplyOutcome>>, i1: int, i2: int)
    requires
        0 <= i1 < rs.len(),
        0 <= i2 < rs.len(),
        i1 != i2,
        rs[i1] is None,
        rs[i2] is None,
    ensures
        count_vacant(rs) >= 2,
    decreases rs.len(),
{
    if i1 == rs.len() - 1 {
        lemma_count_vacant_pos(rs.drop_last(), i2);
    } else if i2 == rs.len() - 1 {
        lemma_count_vacant_pos(rs.drop_last(), i1);
    } else {
        lemma_count_vacant_two(rs.drop_last(), i1, i2);
    }
}

/// A vacant slot makes the vacancy count positive.
proof fn lemma_count_vacant_pos(rs: Seq<Option<ReplyOutcome>>, i: int)
    requires
        0 <= i < rs.len(),
        rs[i] is None,
    ensures
        count_vacant(rs) >= 1,
    decreases rs.len(),
{
    if i == rs.len() - 1 {
    } else {
        lemma_count_vacant_pos(rs.drop_last(), i);
    }
}

/// The subscriptions as (identifier, unsubscribe method) models, in order.
pub open spec fn view_subs(s: Seq<(Id, String)>) -> Seq<(IdV, Seq<char>)>
    decreases s.len(),
{
    if s.len() == 0 {
        Seq::empty()
    } else {
        seq![(s[0].0@, s[0].1@)] + view_subs(s.drop_first())
    }
}

/// Facts about `view_subs`: it keeps length and maps each record pointwise.
pub proof fn lemma_view_subs(s: Seq<(Id, String)>)
    ensures
        view_subs(s).len() == s.len(),
        forall|i: int| 0 <= i < s.len() ==> view_subs(s)[i] == (s[i].0@, s[i].1@),
    decreases s.len(),
{
    if s.len() > 0 {
        lemma_view_subs(s.drop_first());
    }
}

/// The unsubscribe method of the first subscription with identifier `id`.
pub open spec fn subs_lookup(s: Seq<(IdV, Seq<char>)>, id: IdV) -> Option<Seq<char>>
    decreases s.len(),
{
    if s.len() == 0 {
        None
    } else if s[0].0 == id {
        Some(s[0].1)
    } else {
        subs_lookup(s.drop_first(), id)
    }
}

/// Whether two identifiers are the same.
pub fn id_eq(a: &Id, b: &Id) -> (r: bool)
    ensures
        r == (a@ == b@),
{
    match (a, b) {
        (Id::Null, Id::Null) => true,
        (Id::Num(x), Id::Num(y)) => *x == *y,
        (Id::Str(x), Id::Str(y)) => crate::json::str_eq(x.as_str(), y.as_str()),
        _ => false,
    }
}

/// Whether some element of `ids` is the identifier `id`.
pub open spec fn ids_contain(ids: Seq<u64>, id: int) -> bool {
    exists|j: int| 0 <= j < ids.len() && #[trigger] ids[j] as int == id
}

/// Whether `actions` resolves the caller `token` with `RestartNeeded`
/// carrying `reason`.
pub open spec fn has_restart_failure(actions: Seq<Action>, token: u64, reason: Seq<char>) -> bool {
    exists|j: int|
        0 <= j < actions.len() && (#[trigger] actions[j] matches Action::ReplyFailure {
            token: t,
            error,
        } && t == token && (error matches Error::RestartNeeded(rr) && rr@ == reason))
}

/// Whether `actions` closes the subscription `sid`.
pub open spec fn has_close(actions: Seq<Action>, sid: IdV) -> bool {
    exists|j: int|
        0 <= j < actions.len() && (#[trigger] actions[j] matches
        Action::CloseSubscription { sub_id } && sub_id@ == sid)
}

/// Whether `actions` drains every waiter of `c`: each outstanding single
/// call and subscribe call fails with `RestartNeeded` carrying `reason`,
/// each outstanding batch fails the same way, and every subscription stream
/// is closed.
pub open spec fn drained(c: Client, actions: Seq<Action>, reason: Seq<char>) -> bool {
    &&& forall|i: int|
        #![trigger c.pending_at(i)]
        c.pending_at(i) matches Some(Pending::Single { token }) ==> has_restart_failure(
            actions,
            token,
            reason,
        )
    &&& forall|i: int|
        #![trigger c.pending_at(i)]
        c.pending_at(i) matches Some(Pending::Subscribe { token, unsub_method })
            ==> has_restart_failure(actions, token, reason)
    &&& forall|b: int|
        #![trigger c.batch_at(b)]
        c.batch_at(b) is Some ==> has_restart_failure(
            actions,
            c.batch_at(b)->0.token,
            reason,
        )
    &&& forall|k: int|
        #![trigger c.subs_view()[k]]
        0 <= k < c.subs_view().len() ==> has_close(actions, c.subs_view()[k].0)
}

/// Growing the action list keeps every promise it already makes.
proof fn lemma_promises_monotone(prev: Seq<Action>, cur: Seq<Action>)
    requires
        prev.len() <= cur.len(),
        forall|j: int| 0 <= j < prev.len() ==> cur[j] == prev[j],
    ensures
        forall|tk: u64, r: Seq<char>|
            has_restart_failure(prev, tk, r) ==> #[trigger] has_restart_failure(
                cur,
                tk,
                r,
            ),
        forall|sid: IdV| has_close(prev, sid) ==> #[trigger] has_close(cur, sid),
{
    assert forall|tk: u64, r: Seq<char>|
        has_restart_failure(prev, tk, r) implies #[trigger] has_restart_failure(
        cur,
        tk,
        r,
    ) by {
        let j = choose|j: int|
            0 <= j < prev.len() && (#[trigger] prev[j] matches Action::ReplyFailure {
                token: t,
                error,
            } && t == tk && (error matches Error::RestartNeeded(rr) && rr@ == r));
        assert(cur[j] == prev[j]);
    }
    assert forall|sid: IdV| has_close(prev, sid) implies #[trigger] has_close(
        cur,
        sid,
    ) by {
        let j = choose|j: int|
            0 <= j < prev.len() && (#[trigger] prev[j] matches
            Action::CloseSubscription { sub_id } && sub_id@ == sid);
        assert(cur[j] == prev[j]);
    }
}

/// One decoded reply applied to the engine: the transition `handle_response`
/// makes from `pre` to `post` and the actions it emits, stated over the
/// reply's model. Dispatch is strictly by the reply's identifier: the waiter
/// registered under that ID is resolved and every other slot is untouched.
pub open spec fn reply_step(pre: Client, r: ResponseV, post: Client, actions: Seq<Action>) -> bool {
    &&& post.wf()
    &&& post.max_slots() == pre.max_slots()
    &&& match r.id {
        IdV::Num(n) => match pre.pending_at(n as int) {
            Some(Pending::Single { token }) => {
                &&& post.spec_connected()
                &&& post.pending_at(n as int) is None
                &&& forall|j: int|
                    j != n as int ==> post.pending_at(j) == pre.pending_at(j)
                &&& post.in_flight() == pre.in_flight() - 1
                &&& !post.slot_in_use(n as int)
                &&& forall|j: int| j != n as int ==> post.slot_in_use(j) == pre.slot_in_use(j)
                &&& post.subs_view() == pre.subs_view()
                &&& post.batch_count() == pre.batch_count()
                &&& forall|b: int| post.batch_at(b) == pre.batch_at(b)
                &&& actions.len() == 1
                &&& match r.outcome {
                    ReplyOutcomeV::Success(v) => actions[0] matches Action::ReplySuccess {
                        token: t,
                        value,
                    } && t == token && value@ == v,
                    ReplyOutcomeV::Failure(se) => actions[0] matches Action::ReplyFailure {
                        token: t,
                        error,
                    } && t == token && (error matches Error::Request(se2) && se2@ == se),
                }
            },
            Some(Pending::Subscribe { token, unsub_method }) => {
                &&& post.spec_connected()
                &&& post.pending_at(n as int) is None
                &&& forall|j: int|
                    j != n as int ==> post.pending_at(j) == pre.pending_at(j)
                &&& post.in_flight() == pre.in_flight() - 1
                &&& !post.slot_in_use(n as int)
                &&& forall|j: int| j != n as int ==> post.slot_in_use(j) == pre.slot_in_use(j)
                &&& post.batch_count() == pre.batch_count()
                &&& forall|b: int| post.batch_at(b) == pre.batch_at(b)
                &&& match r.outcome {
                    ReplyOutcomeV::Success(v) => match crate::response::sp_sub_id_of(v) {
                        Some(sid) => {
                            &&& actions.len() == 1
                            &&& (actions[0] matches Action::SubscribeConfirmed {
                                token: t,
                                sub_id,
                            } && t == token && sub_id@ == sid)
                            &&& post.subs_view() == pre.subs_view().push((sid, unsub_method@))
                        },
                        None => {
                            &&& actions.len() == 1
                            &&& (actions[0] matches Action::ReplyFailure { token: t, error }
                                && t == token && error matches Error::InvalidSubscriptionId)
                            &&& post.subs_view() == pre.subs_view()
                        },
                    },
                    ReplyOutcomeV::Failure(se) => {
                        &&& actions.len() == 1
                        &&& (actions[0] matches Action::ReplyFailure { token: t, error } && t
                            == token && (error matches Error::Request(se2) && se2@ == se))
                        &&& post.subs_view() == pre.subs_view()
                    },
                }
            },
            Some(Pending::InBatch { batch, slot }) => {
                &&& post.spec_connected()
                &&& post.pending_at(n as int) is None
                &&& forall|j: int|
                    j != n as int ==> post.pending_at(j) == pre.pending_at(j)
                &&& post.in_flight() == pre.in_flight() - 1
                &&& !post.slot_in_use(n as int)
                &&& forall|j: int| j != n as int ==> post.slot_in_use(j) == pre.slot_in_use(j)
                &&& post.subs_view() == pre.subs_view()
                &&& post.batch_count() == pre.batch_count()
                &&& forall|b2: int|
                    b2 != batch as int ==> post.batch_at(b2) == pre.batch_at(b2)
                &&& (pre.batch_at(batch as int)->0.remaining > 1 ==> {
                    &&& actions.len() == 0
                    &&& post.batch_at(batch as int) is Some
                    &&& post.batch_at(batch as int)->0.remaining == pre.batch_at(
                        batch as int,
                    )->0.remaining - 1
                    &&& post.batch_at(batch as int)->0.token == pre.batch_at(
                        batch as int,
                    )->0.token
                    &&& post.batch_at(batch as int)->0.ids@ == pre.batch_at(
                        batch as int,
                    )->0.ids@
                    &&& post.batch_at(batch as int)->0.results@.len() == pre.batch_at(
                        batch as int,
                    )->0.results@.len()
                    &&& (post.batch_at(batch as int)->0.results@[slot as int] matches Some(o)
                        && o@ == r.outcome)
                    &&& forall|j: int|
                        0 <= j < pre.batch_at(batch as int)->0.results@.len() && j
                            != slot as int ==> post.batch_at(batch as int)->0.results@[j]
                            == pre.batch_at(batch as int)->0.results@[j]
                })
                &&& (pre.batch_at(batch as int)->0.remaining == 1 ==> {
                    &&& post.batch_at(batch as int) is None
                    &&& actions.len() == 1
                    &&& (actions[0] matches Action::ReplyBatch { token: t, outcomes } && t
                        == pre.batch_at(batch as int)->0.token && outcomes@.len()
                        == pre.batch_at(batch as int)->0.ids@.len() && outcomes@[
                        slot as int]@ == r.outcome && (forall|j: int|
                        0 <= j < outcomes@.len() && j != slot as int ==> pre.batch_at(
                            batch as int,
                        )->0.results@[j] == Some(#[trigger] outcomes@[j])))
                })
            },
            None => {
                &&& !post.spec_connected()
                &&& post.spec_close_reason() == "Invalid request ID"@
                &&& forall|i: int| post.pending_at(i) is None
                &&& post.batch_count() == 0
                &&& post.subs_view().len() == 0
                &&& drained(pre, actions, "Invalid request ID"@)
            },
        },
        _ => {
            &&& !post.spec_connected()
            &&& post.spec_close_reason() == "Invalid request ID"@
            &&& forall|i: int| post.pending_at(i) is None
            &&& post.batch_count() == 0
            &&& post.subs_view().len() == 0
            &&& drained(pre, actions, "Invalid request ID"@)
        },
    }
}

/// One decoded subscription notification applied to the engine: the payload
/// goes to the live subscription it names; a payload for an unknown
/// subscription is dropped. The engine itself never changes.
pub open spec fn notif_step(pre: Client, n: SubNotifV, post: Client, actions: Seq<Action>) -> bool {
    &&& post == pre
    &&& match subs_lookup(pre.subs_view(), n.subscription) {
        Some(u) => actions.len() == 1 && (actions[0] matches Action::DeliverSub {
            sub_id,
            payload,
        } && sub_id@ == n.subscription && payload@ == n.result),
        None => actions.len() == 0,
    }
}

/// One item of a reply batch applied to the engine: while the session lives
/// the item is dispatched as a reply; once the session has terminated the
/// rest of the batch is dropped.
pub open spec fn batch_item_step(pre: Client, r: ResponseV, post: Client, actions: Seq<
    Action,
>) -> bool {
    if pre.spec_connected() {
        reply_step(pre, r, post, actions)
    } else {
        &&& post == pre
        &&& actions.len() == 0
    }
}

/// A whole reply batch applied to the engine: the fold of `batch_item_step`
/// over the items in order, with the actions each item emits concatenated in
/// that same order. `actions.take(cut)` is what the items before the last
/// emitted; `actions.skip(cut)` is the last item's own contribution.
pub open spec fn batch_steps(pre: Client, rs: Seq<ResponseV>, post: Client, actions: Seq<
    Action,
>) -> bool
    decreases rs.len(),
{
    if rs.len() == 0 {
        &&& post == pre
        &&& actions.len() == 0
    } else {
        exists|mid: Client, cut: int|
            #![trigger batch_item_step(mid, rs.last(), post, actions.skip(cut))]
            {
                &&& 0 <= cut <= actions.len()
                &&& batch_steps(pre, rs.drop_last(), mid, actions.take(cut))
                &&& batch_item_step(mid, rs.last(), post, actions.skip(cut))
            }
    }
}

/// Introduction form for `batch_steps`: a run over all items but the last,
/// followed by the last item's own step, is a run over the whole batch.
proof fn lemma_batch_steps_extend(
    pre: Client,
    rs: Seq<ResponseV>,
    mid: Client,
    post: Client,
    actions: Seq<Action>,
    cut: int,
)
    requires
        rs.len() > 0,
        0 <= cut <= actions.len(),
        batch_steps(pre, rs.drop_last(), mid, actions.take(cut)),
        batch_item_step(mid, rs.last(), post, actions.skip(cut)),
    ensures
        batch_steps(pre, rs, post, actions),
{
}

/// Correlation is by request ID alone, over a whole run of replies: a slot
/// whose ID no reply in the run bears is left exactly as it was, provided
/// the session survived the run. No reply can resolve, poison or clear a
/// waiter other than the one registered under its own ID.
pub proof fn lemma_batch_steps_untouched(
    pre: Client,
    rs: Seq<ResponseV>,
    post: Client,
    actions: Seq<Action>,
    id: u64,
)
    requires
        batch_steps(pre, rs, post, actions),
        post.spec_connected(),
        forall|t: int| 0 <= t < rs.len() ==> (#[trigger] rs[t]).id != IdV::Num(id),
    ensures
        post.pending_at(id as int) == pre.pending_at(id as int),
        post.slot_in_use(id as int) == pre.slot_in_use(id as int),
    decreases rs.len(),
{
    if rs.len() > 0 {
        let (mid, cut) = choose|mid: Client, cut: int|
            #![trigger batch_item_step(mid, rs.last(), post, actions.skip(cut))]
            {
                &&& 0 <= cut <= actions.len()
                &&& batch_steps(pre, rs.drop_last(), mid, actions.take(cut))
                &&& batch_item_step(mid, rs.last(), post, actions.skip(cut))
            };
        if !mid.spec_connected() {
            assert(post == mid);
            assert(false);
        } else {
            assert(reply_step(mid, rs.last(), post, actions.skip(cut)));
            assert(forall|t: int|
                0 <= t < rs.drop_last().len() ==> (#[trigger] rs.drop_last()[t]).id
                    != IdV::Num(id));
            lemma_batch_steps_untouched(pre, rs.drop_last(), mid, actions.take(cut), id);
        }
    }
}

/// In-flight accounting over a whole run of replies: if the session
/// survives the run, every reply resolved exactly one outstanding request
/// ID, so the run recycles exactly as many IDs as it has replies.
pub proof fn lemma_batch_steps_in_flight(
    pre: Client,
    rs: Seq<ResponseV>,
    post: Client,
    actions: Seq<Action>,
)
    requires
        batch_steps(pre, rs, post, actions),
        post.spec_connected(),
    ensures
        post.in_flight() + rs.len() == pre.in_flight(),
        post.max_slots() == pre.max_slots(),
    decreases rs.len(),
{
    if rs.len() > 0 {
        let (mid, cut) = choose|mid: Client, cut: int|
            #![trigger batch_item_step(mid, rs.last(), post, actions.skip(cut))]
            {
                &&& 0 <= cut <= actions.len()
                &&& batch_steps(pre, rs.drop_last(), mid, actions.take(cut))
                &&& batch_item_step(mid, rs.last(), post, actions.skip(cut))
            };
        if !mid.spec_connected() {
            assert(post == mid);
            assert(false);
        } else {
            assert(reply_step(mid, rs.last(), post, actions.skip(cut)));
            lemma_batch_steps_in_flight(pre, rs.drop_last(), mid, actions.take(cut));
        }
    }
}

/// A whole batch reassembled in caller-input order: for a batch record all
/// of whose slots still await their outcome, a run that delivers one reply
/// for each of the batch's distinct IDs — in any arrival order, given by
/// `perm` — ends with exactly one action, the batch reply to the caller,
/// whose outcome vector holds one entry per call in caller-input order:
/// entry `perm[t]` is the outcome of the reply bearing the ID the client
/// issued for slot `perm[t]`, never an outcome taken by position. A run
/// that is still short of the whole batch emits nothing and leaves the
/// batch record awaiting exactly the slots not yet resolved.
pub proof fn lemma_batch_reassembly(
    pre: Client,
    rs: Seq<ResponseV>,
    post: Client,
    actions: Seq<Action>,
    b: usize,
    perm: Seq<int>,
)
    requires
        batch_steps(pre, rs, post, actions),
        pre.spec_connected(),
        pre.batch_at(b as int) is Some,
        pre.batch_at(b as int)->0.ids@.len() <= usize::MAX,
        rs.len() <= pre.batch_at(b as int)->0.ids@.len(),
        pre.batch_at(b as int)->0.results@.len() == pre.batch_at(b as int)->0.ids@.len(),
        pre.batch_at(b as int)->0.remaining == pre.batch_at(b as int)->0.ids@.len(),
        forall|j: int|
            0 <= j < pre.batch_at(b as int)->0.results@.len() ==> pre.batch_at(
                b as int,
            )->0.results@[j] is None,
        forall|j1: int, j2: int|
            0 <= j1 < j2 < pre.batch_at(b as int)->0.ids@.len() ==> #[trigger] pre.batch_at(
                b as int,
            )->0.ids@[j1] != #[trigger] pre.batch_at(b as int)->0.ids@[j2],
        forall|j: int|
            0 <= j < pre.batch_at(b as int)->0.ids@.len() ==> #[trigger] pre.pending_at(
                pre.batch_at(b as int)->0.ids@[j] as int,
            ) == Some(Pending::InBatch { batch: b, slot: j as usize }),
        perm.len() == rs.len(),
        forall|t: int|
            0 <= t < perm.len() ==> 0 <= #[trigger] perm[t] < pre.batch_at(
                b as int,
            )->0.ids@.len(),
        forall|t1: int, t2: int|
            0 <= t1 < t2 < perm.len() ==> perm[t1] != perm[t2],
        forall|t: int|
            0 <= t < rs.len() ==> (#[trigger] rs[t]).id == IdV::Num(
                pre.batch_at(b as int)->0.ids@[perm[t]],
            ),
    ensures
        post.spec_connected(),
        rs.len() < pre.batch_at(b as int)->0.ids@.len() ==> {
            &&& actions.len() == 0
            &&& post.batch_at(b as int) is Some
            &&& post.batch_at(b as int)->0.token == pre.batch_at(b as int)->0.token
            &&& post.batch_at(b as int)->0.ids@ == pre.batch_at(b as int)->0.ids@
            &&& post.batch_at(b as int)->0.remaining == pre.batch_at(
                b as int,
            )->0.remaining - rs.len()
            &&& post.batch_at(b as int)->0.results@.len() == pre.batch_at(
                b as int,
            )->0.results@.len()
            &&& forall|t: int|
                0 <= t < rs.len() ==> (post.batch_at(b as int)->0.results@[
                #[trigger] perm[t]] matches Some(o) && o@ == rs[t].outcome)
            &&& forall|j: int|
                0 <= j < pre.batch_at(b as int)->0.ids@.len() && !(#[trigger] perm.contains(
                    j,
                )) ==> {
                    &&& post.batch_at(b as int)->0.results@[j] is None
                    &&& post.pending_at(pre.batch_at(b as int)->0.ids@[j] as int) == Some(
                        Pending::InBatch { batch: b, slot: j as usize },
                    )
                }
        },
        rs.len() == pre.batch_at(b as int)->0.ids@.len() && rs.len() > 0 ==> {
            &&& post.batch_at(b as int) is None
            &&& actions.len() == 1
            &&& (actions[0] matches Action::ReplyBatch { token, outcomes } && token
                == pre.batch_at(b as int)->0.token && outcomes@.len() == rs.len() && (
            forall|t: int|
                0 <= t < rs.len() ==> (#[trigger] outcomes@[perm[t]])@ == rs[t].outcome))
        },
    decreases rs.len(),
{
    let ids = pre.batch_at(b as int)->0.ids@;
    let kk = ids.len() as int;
    if rs.len() > 0 {
        let n_last = rs.len() - 1;
        let (mid, cut) = choose|mid: Client, cut: int|
            #![trigger batch_item_step(mid, rs.last(), post, actions.skip(cut))]
            {
                &&& 0 <= cut <= actions.len()
                &&& batch_steps(pre, rs.drop_last(), mid, actions.take(cut))
                &&& batch_item_step(mid, rs.last(), post, actions.skip(cut))
            };
        assert forall|t: int| 0 <= t < rs.drop_last().len() implies (#[trigger] rs.drop_last()[
        t]).id == IdV::Num(ids[perm.drop_last()[t]]) by {
            assert(rs.drop_last()[t] == rs[t]);
            assert(perm.drop_last()[t] == perm[t]);
        }
        assert(forall|t: int|
            0 <= t < perm.drop_last().len() ==> 0 <= #[trigger] perm.drop_last()[t] < kk);
        lemma_batch_reassembly(pre, rs.drop_last(), mid, actions.take(cut), b, perm.drop_last());
        assert(actions.take(cut).len() == 0);
        assert(cut == 0);
        assert(actions.skip(0) =~= actions);
        let s_last = perm[n_last as int];
        assert(!perm.drop_last().contains(s_last)) by {
            if perm.drop_last().contains(s_last) {
                let s = choose|s: int|
                    0 <= s < perm.drop_last().len() && perm.drop_last()[s] == s_last;
                assert(perm[s] == perm[n_last as int]);
                assert(false);
            }
        }
        assert(mid.pending_at(ids[s_last] as int) == Some(
            Pending::InBatch { batch: b, slot: s_last as usize },
        ));
        assert(mid.spec_connected());
        assert(reply_step(mid, rs.last(), post, actions));
        assert(rs.last() == rs[n_last as int]);
        assert(rs.last().id == IdV::Num(ids[s_last]));
        assert((s_last as usize) as int == s_last);
        assert(mid.batch_at(b as int)->0.remaining == kk - n_last);
        if rs.len() < kk {
            // one more slot filled; the batch stays open and nothing is emitted
            assert(mid.batch_at(b as int)->0.remaining > 1);
            assert(actions.len() == 0);
            assert forall|t: int|
                0 <= t < rs.len() implies (post.batch_at(b as int)->0.results@[
            #[trigger] perm[t]] matches Some(o) && o@ == rs[t].outcome) by {
                if t < n_last {
                    assert(perm[t] != s_last);
                    assert(post.batch_at(b as int)->0.results@[perm[t]] == mid.batch_at(
                        b as int,
                    )->0.results@[perm[t]]);
                    assert(mid.batch_at(b as int)->0.results@[perm.drop_last()[t]] matches Some(
                        o,
                    ) && o@ == rs.drop_last()[t].outcome);
                }
            }
            assert forall|j: int|
                0 <= j < kk && !(#[trigger] perm.contains(j)) implies {
                &&& post.batch_at(b as int)->0.results@[j] is None
                &&& post.pending_at(ids[j] as int) == Some(
                    Pending::InBatch { batch: b, slot: j as usize },
                )
            } by {
                assert(perm.contains(s_last)) by {
                    assert(perm[n_last as int] == s_last);
                }
                assert(j != s_last);
                assert(!perm.drop_last().contains(j)) by {
                    if perm.drop_last().contains(j) {
                        let s = choose|s: int|
                            0 <= s < perm.drop_last().len() && perm.drop_last()[s] == j;
                        assert(perm[s] == j);
                        assert(perm.contains(j));
                    }
                }
                assert(ids[j] != ids[s_last]);
                assert(post.pending_at(ids[j] as int) == mid.pending_at(ids[j] as int));
            }
        } else {
            // the last owed slot fills: the whole batch resolves in caller order
            assert(rs.len() == kk);
            assert(mid.batch_at(b as int)->0.remaining == 1);
            assert(actions.len() == 1);
            assert(actions[0] matches Action::ReplyBatch { token, outcomes } && token
                == pre.batch_at(b as int)->0.token && outcomes@.len() == rs.len());
            assert forall|t: int|
                0 <= t < rs.len() implies (actions[0] matches Action::ReplyBatch {
                token,
                outcomes,
            } && outcomes@[#[trigger] perm[t]]@ == rs[t].outcome) by {
                if t < n_last {
                    assert(perm[t] != s_last);
                    assert(mid.batch_at(b as int)->0.results@[perm.drop_last()[t]] matches Some(
                        o,
                    ) && o@ == rs.drop_last()[t].outcome);
                }
            }
        }
    }
}

/// On a pool with no ID in use, the allocation policy — each call takes the
/// lowest ID that is free and not already taken for an earlier slot — forces
/// consecutive IDs: slot `j` of the batch is numbered exactly `j`.
pub proof fn lemma_fresh_batch_ids(pre: Client, ids: Seq<u64>)
    requires
        forall|i: int| !pre.slot_in_use(i),
        forall|j1: int, j2: int| 0 <= j1 < j2 < ids.len() ==> ids[j1] != ids[j2],
        forall|j: int, i: int|
            0 <= j < ids.len() && 0 <= i < ids[j] as int && !pre.slot_in_use(i)
                ==> #[trigger] ids_contain(ids.take(j), i),
    ensures
        forall|j: int| 0 <= j < ids.len() ==> #[trigger] ids[j] as int == j,
    decreases ids.len(),
{
    if ids.len() > 0 {
        let l = ids.len() - 1;
        assert forall|j: int, i: int|
            0 <= j < ids.drop_last().len() && 0 <= i < ids.drop_last()[j] as int
                && !pre.slot_in_use(i) implies #[trigger] ids_contain(
            ids.drop_last().take(j),
            i,
        ) by {
            assert(ids.drop_last()[j] == ids[j]);
            assert(ids_contain(ids.take(j), i));
            assert(ids.drop_last().take(j) =~= ids.take(j));
        }
        lemma_fresh_batch_ids(pre, ids.drop_last());
        assert forall|j: int| 0 <= j < ids.len() implies #[trigger] ids[j] as int == j by {
            if j < l {
                assert(ids.drop_last()[j] as int == j);
            } else {
                if ids[l] as int > l {
                    assert(!pre.slot_in_use(l));
                    assert(ids_contain(ids.take(l), l));
                    let w = choose|w: int|
                        0 <= w < ids.take(l).len() && #[trigger] ids.take(l)[w] as int == l;
                    assert(ids.take(l)[w] == ids[w]);
                    assert(ids.drop_last()[w] as int == w);
                    assert(false);
                }
                if (ids[l] as int) < l {
                    let v = ids[l] as int;
                    assert(ids.drop_last()[v] as int == v);
                    assert(ids[v] == ids[l]);
                    assert(false);
                }
            }
        }
    }
}

/// The frontend/backend engine of one client session: the request registry,
/// the ID pool, the live subscriptions, and the session state.
pub struct Client {
    /// The ID pool.
    alloc: IdAllocator,
    /// The waiter registered under each request ID.
    pending: Vec<Option<Pending>>,
    /// The outstanding batches.
    batches: Vec<Option<BatchEntry>>,
    /// The live subscriptions: identifier and unsubscribe method.
    subs: Vec<(Id, String)>,
    /// Whether the session is still running.
    running: bool,
    /// Why the session ended, once it has.
    close_reason: String,
}

impl Client {
    /// Whether the background engine is still running: no fatal transport or
    /// protocol failure has been observed.
    pub closed spec fn spec_connected(self) -> bool {
        self.running
    }

    /// Why the session ended: the reason recorded at termination, handed
    /// back with every `RestartNeeded` failure afterwards.
    pub closed spec fn spec_close_reason(self) -> Seq<char> {
        self.close_reason@
    }

    /// The size of the ID pool.
    pub closed spec fn max_slots(self) -> nat {
        self.alloc.max_slots()
    }

    /// How many request IDs are in use.
    pub closed spec fn in_flight(self) -> nat {
        self.alloc.in_use()
    }

    /// The waiter registered under request ID `id`.
    pub closed spec fn pending_at(self, id: int) -> Option<Pending> {
        if 0 <= id < self.pending@.len() {
            self.pending@[id]
        } else {
            None
        }
    }

    /// The batch table.
    pub closed spec fn batch_at(self, b: int) -> Option<BatchEntry> {
        if 0 <= b < self.batches@.len() {
            self.batches@[b]
        } else {
            None
        }
    }

    /// How many batch records the batch table holds.
    pub closed spec fn batch_count(self) -> nat {
        self.batches@.len()
    }

    /// Whether the ID `id` is currently in use.
    pub closed spec fn slot_in_use(self, id: int) -> bool {
        self.alloc.slot_used(id)
    }

    /// The live subscriptions.
    pub closed spec fn subs_view(self) -> Seq<(IdV, Seq<char>)> {
        view_subs(self.subs@)
    }

    /// The engine's internal consistency:
    /// - the ID pool and the registry agree: a registered ID is in use;
    /// - every batch slot a waiter points to exists, names that waiter's ID,
    ///   and still awaits its outcome;
    /// - every batch counts its vacant slots in `remaining`.
    pub closed spec fn wf(self) -> bool {
        &&& self.alloc.wf()
        &&& self.pending@.len() == self.alloc.max_slots()
        &&& forall|i: int|
            0 <= i < self.pending@.len() && self.pending@[i] is Some
                ==> self.alloc.slot_used(i)
        &&& forall|i: int|
            #![trigger self.pending@[i]]
            0 <= i < self.pending@.len() ==> match self.pending@[i] {
                Some(Pending::InBatch { batch, slot }) => {
                    &&& batch < self.batches@.len()
                    &&& self.batches@[batch as int] is Some
                    &&& slot < self.batches@[batch as int]->0.ids@.len()
                    &&& self.batches@[batch as int]->0.ids@[slot as int] == i as u64
                    &&& self.batches@[batch as int]->0.results@.len()
                        == self.batches@[batch as int]->0.ids@.len()
                    &&& self.batches@[batch as int]->0.results@[slot as int] is None
                },
                _ => true,
            }
        &&& forall|b: int|
            #![trigger self.batches@[b]]
            0 <= b < self.batches@.len() && self.batches@[b] is Some ==> {
                &&& self.batches@[b]->0.results@.len() == self.batches@[b]->0.ids@.len()
                &&& self.batches@[b]->0.remaining as nat == count_vacant(
                    self.batches@[b]->0.results@,
                )
            }
    }

    /// A fresh engine with an ID pool of `max_slots` slots.
    pub fn new(max_slots: usize) -> (r: Client)
        ensures
            r.wf(),
            r.spec_connected(),
            r.max_slots() == max_slots,
            r.in_flight() == 0,
            forall|i: int| r.pending_at(i) is None,
            r.batch_count() == 0,
            forall|b: int| r.batch_at(b) is None,
            r.subs_view() == Seq::<(IdV, Seq<char>)>::empty(),
            forall|id: int| !r.slot_in_use(id),
    {
        let alloc = IdAllocator::new(max_slots);
        let mut pending: Vec<Option<Pending>> = Vec::new();
        let mut i: usize = 0;
        while i < max_slots
            invariant
                i <= max_slots,
                pending@.len() == i,
                forall|k: int| 0 <= k < i ==> pending@[k] is None,
            decreases max_slots - i,
        {
            pending.push(None);
            i = i + 1;
        }
        Client {
            alloc,
            pending,
            batches: Vec::new(),
            subs: Vec::new(),
            running: true,
            close_reason: String::new(),
        }
    }

    /// How many request IDs are currently in use.
    pub fn in_flight_count(&self) -> (r: usize)
        requires
            self.wf(),
        ensures
            r as nat == self.in_flight(),
    {
        self.alloc.in_use_count()
    }

    /// The size of the ID pool.
    pub fn capacity(&self) -> (r: usize)
        ensures
            r as nat == self.max_slots(),
    {
        self.alloc.capacity()
    }

    /// At most `max_slots` request IDs are ever in use.
    pub proof fn lemma_in_flight_bounded(self)
        requires
            self.wf(),
        ensures
            self.in_flight() <= self.max_slots(),
    {
        self.alloc.lemma_in_use_bounded();
    }

    /// True iff the background engine has not yet terminated.
    pub fn is_connected(&self) -> (r: bool)
        ensures
            r == self.spec_connected(),
    {
        self.running
    }

    /// Submits a single method call. On a live session with a free ID slot,
    /// exactly the framed call is written to the transport and the caller's
    /// token is registered under the fresh ID; with no free slot the call
    /// fails with `MaxSlotsExceeded`; on a dead session it fails with
    /// `RestartNeeded`.
    pub fn request(&mut self, method: String, params: Params, token: u64) -> (actions: Vec<
        Action,
    >)
        requires
            old(self).wf(),
        ensures
            final(self).wf(),
            final(self).max_slots() == old(self).max_slots(),
            final(self).spec_connected() == old(self).spec_connected(),
            !old(self).spec_connected() ==> *final(self) == *old(self) && actions@.len()
                == 1 && (actions@[0] matches Action::ReplyFailure { token: t, error }
                && t == token && (error matches Error::RestartNeeded(rr) && rr@ == old(
                self,
            ).spec_close_reason())),
            old(self).spec_connected() && old(self).in_flight() == old(self).max_slots()
                ==> *final(self) == *old(self) && actions@.len() == 1 && (actions@[0] matches
            Action::ReplyFailure { token: t, error } && t == token
                && error matches Error::MaxSlotsExceeded),
            old(self).spec_connected() && old(self).in_flight() < old(self).max_slots()
                ==> {
                &&& final(self).in_flight() == old(self).in_flight() + 1
                &&& final(self).subs_view() == old(self).subs_view()
                &&& actions@.len() == 1
                &&& exists|id: u64|
                    {
                        &&& id < old(self).max_slots()
                        &&& !old(self).slot_in_use(id as int)
                        &&& (forall|i: int| 0 <= i < id as int ==> old(self).slot_in_use(i))
                        &&& old(self).pending_at(id as int) is None
                        &&& final(self).pending_at(id as int) == Some(
                            Pending::Single { token },
                        )
                        &&& forall|j: int|
                            j != id as int ==> final(self).pending_at(j) == old(
                                self,
                            ).pending_at(j)
                        &&& (actions@[0] matches Action::WriteFrame(f) && f@ == spec_text(
                            method_call_jsonv(
                                MethodCallV {
                                    method: method@,
                                    params: params@,
                                    id: IdV::Num(id),
                                },
                            ),
                        ))
                    }
            },
    {
        if !self.running {
            let mut actions: Vec<Action> = Vec::new();
            actions.push(
                Action::ReplyFailure {
                    token,
                    error: Error::RestartNeeded(self.close_reason.clone()),
                },
            );
            return actions;
        }
        match self.alloc.acquire() {
            None => {
                proof {
                    old(self).alloc.lemma_in_use_bounded();
                }
                let mut actions: Vec<Action> = Vec::new();
                actions.push(
                    Action::ReplyFailure { token, error: Error::MaxSlotsExceeded },
                );
                actions
            },
            Some(id) => {
                let ghost m0 = method@;
                let ghost p0 = params@;
                let np = self.pending.len();
                let idx = id as usize;
                proof {
                    assert(id < np as u64);
                    assert(idx as int == id as int);
                    assert(old(self).pending@[id as int] is None);
                }
                self.pending.set(idx, Some(Pending::Single { token }));
                let mc = MethodCall {
                    jsonrpc: Version::V2,
                    method,
                    params,
                    id: Id::Num(id),
                };
                let frame = mc.to_json();
                let mut actions: Vec<Action> = Vec::new();
                actions.push(Action::WriteFrame(frame));
                proof {
                    old(self).alloc.lemma_in_use_bounded();
                    self.alloc.lemma_in_use_bounded();
                    assert(self.pending@ =~= old(self).pending@.update(
                        id as int,
                        Some(Pending::Single { token }),
                    ));
                    assert(id < old(self).max_slots());
                    assert(old(self).pending_at(id as int) is None);
                    assert(self.pending_at(id as int) == Some(Pending::Single { token }));
                    assert(forall|j: int|
                        j != id as int ==> self.pending_at(j) == old(self).pending_at(j));
                    assert(actions@[0] matches Action::WriteFrame(f) && f@ == spec_text(
                        method_call_jsonv(
                            MethodCallV { method: m0, params: p0, id: IdV::Num(id) },
                        ),
                    ));
                }
                actions
            },
        }
    }

    /// Submits a notification. On a live session exactly the framed
    /// notification is written to the transport; no ID is consumed and the
    /// engine is unchanged. On a dead session nothing happens.
    pub fn notification(&mut self, method: String, params: Params) -> (actions: Vec<
        Action,
    >)
        requires
            old(self).wf(),
        ensures
            final(self).wf(),
            *final(self) == *old(self),
            !old(self).spec_connected() ==> actions@.len() == 0,
            old(self).spec_connected() ==> actions@.len() == 1 && (actions@[0] matches
            Action::WriteFrame(f) && f@ == spec_text(
                notification_jsonv(NotificationV { method: method@, params: params@ }),
            )),
    {
        let mut actions: Vec<Action> = Vec::new();
        if self.running {
            let n = Notification { jsonrpc: Version::V2, method, params };
            let frame = n.to_json();
            actions.push(Action::WriteFrame(frame));
        }
        actions
    }

    /// Submits a subscribe call. The subscribe and unsubscribe method names
    /// must differ; otherwise the call fails with
    /// `SubscriptionNameConflict`. On success the framed call is written and
    /// the caller's token is registered as a pending subscribe carrying the
    /// unsubscribe method.
    pub fn subscribe(
        &mut self,
        sub_method: String,
        params: Params,
        unsub_method: String,
        token: u64,
    ) -> (actions: Vec<Action>)
        requires
            old(self).wf(),
        ensures
            final(self).wf(),
            final(self).max_slots() == old(self).max_slots(),
            final(self).spec_connected() == old(self).spec_connected(),
            !old(self).spec_connected() ==> *final(self) == *old(self) && actions@.len()
                == 1 && (actions@[0] matches Action::ReplyFailure { token: t, error }
                && t == token && (error matches Error::RestartNeeded(rr) && rr@ == old(
                self,
            ).spec_close_reason())),
            old(self).spec_connected() && sub_method@ == unsub_method@ ==> *final(self)
                == *old(self) && actions@.len() == 1 && (actions@[0] matches
            Action::ReplyFailure { token: t, error } && t == token
                && (error matches Error::SubscriptionNameConflict(m) && m@ == sub_method@)),
            old(self).spec_connected() && sub_method@ != unsub_method@ && old(
                self,
            ).in_flight() == old(self).max_slots() ==> *final(self) == *old(self)
                && actions@.len() == 1 && (actions@[0] matches Action::ReplyFailure {
                token: t,
                error,
            } && t == token && error matches Error::MaxSlotsExceeded),
            old(self).spec_connected() && sub_method@ != unsub_method@ && old(
                self,
            ).in_flight() < old(self).max_slots() ==> {
                &&& final(self).in_flight() == old(self).in_flight() + 1
                &&& final(self).subs_view() == old(self).subs_view()
                &&& actions@.len() == 1
                &&& exists|id: u64|
                    {
                        &&& id < old(self).max_slots()
                        &&& !old(self).slot_in_use(id as int)
                        &&& (forall|i: int| 0 <= i < id as int ==> old(self).slot_in_use(i))
                        &&& old(self).pending_at(id as int) is None
                        &&& (final(self).pending_at(id as int) matches Some(
                            Pending::Subscribe { token: t, unsub_method: u },
                        ) && t == token && u@ == unsub_method@)
                        &&& forall|j: int|
                            j != id as int ==> final(self).pending_at(j) == old(
                                self,
                            ).pending_at(j)
                        &&& (actions@[0] matches Action::WriteFrame(f) && f@ == spec_text(
                            method_call_jsonv(
                                MethodCallV {
                                    method: sub_method@,
                                    params: params@,
                                    id: IdV::Num(id),
                                },
                            ),
                        ))
                    }
            },
    {
        if !self.running {
            let mut actions: Vec<Action> = Vec::new();
            actions.push(
                Action::ReplyFailure {
                    token,
                    error: Error::RestartNeeded(self.close_reason.clone()),
                },
            );
            return actions;
        }
        if crate::json::str_eq(sub_method.as_str(), unsub_method.as_str()) {
            let mut actions: Vec<Action> = Vec::new();
            actions.push(
                Action::ReplyFailure {
                    token,
                    error: Error::SubscriptionNameConflict(sub_method),
                },
            );
            return actions;
        }
        match self.alloc.acquire() {
            None => {
                proof {
                    old(self).alloc.lemma_in_use_bounded();
                }
                let mut actions: Vec<Action> = Vec::new();
                actions.push(
                    Action::ReplyFailure { token, error: Error::MaxSlotsExceeded },
                );
                actions
            },
            Some(id) => {
                let ghost m0 = sub_method@;
                let ghost p0 = params@;
                let ghost u0 = unsub_method@;
                let np = self.pending.len();
                let idx = id as usize;
                proof {
                    assert(id < np as u64);
                    assert(idx as int == id as int);
                    assert(old(self).pending@[id as int] is None);
                }
                self.pending.set(
                    idx,
                    Some(Pending::Subscribe { token, unsub_method }),
                );
                let mc = MethodCall {
                    jsonrpc: Version::V2,
                    method: sub_method,
                    params,
                    id: Id::Num(id),
                };
                let frame = mc.to_json();
                let mut actions: Vec<Action> = Vec::new();
                actions.push(Action::WriteFrame(frame));
                proof {
                    old(self).alloc.lemma_in_use_bounded();
                    self.alloc.lemma_in_use_bounded();
                    assert(self.pending@ =~= old(self).pending@.update(
                        id as int,
                        self.pending@[id as int],
                    ));
                    assert(id < old(self).max_slots());
                    assert(!old(self).slot_in_use(id as int));
                    assert(forall|i: int| 0 <= i < id as int ==> old(self).slot_in_use(i));
                    assert(old(self).pending_at(id as int) is None);
                    assert(self.pending_at(id as int) matches Some(
                        Pending::Subscribe { token: t, unsub_method: u },
                    ) && t == token && u@ == u0);
                    assert(forall|j: int|
                        j != id as int ==> self.pending_at(j) == old(self).pending_at(j));
                    assert(actions@[0] matches Action::WriteFrame(f) && f@ == spec_text(
                        method_call_jsonv(
                            MethodCallV { method: m0, params: p0, id: IdV::Num(id) },
                        ),
                    ));
                }
                actions
            },
        }
    }

    /// Tears a subscription down. If the identifier names a live
    /// subscription, its record is removed and the stored unsubscribe method
    /// is written to the transport as a notification carrying the identifier;
    /// an unknown identifier is silently dropped.
    pub fn unsubscribe(&mut self, sub_id: &Id) -> (actions: Vec<Action>)
        requires
            old(self).wf(),
        ensures
            final(self).wf(),
            final(self).spec_connected() == old(self).spec_connected(),
            final(self).max_slots() == old(self).max_slots(),
            final(self).in_flight() == old(self).in_flight(),
            forall|j: int| final(self).pending_at(j) == old(self).pending_at(j),
            !old(self).spec_connected() ==> *final(self) == *old(self) && actions@.len()
                == 0,
            old(self).spec_connected() ==> match subs_lookup(
                old(self).subs_view(),
                sub_id@,
            ) {
                Some(u) => {
                    &&& actions@.len() == 1
                    &&& (actions@[0] matches Action::WriteFrame(f) && f@ == spec_text(
                        notification_jsonv(
                            NotificationV {
                                method: u,
                                params: ParamsV::Array(seq![id_jsonv(sub_id@)]),
                            },
                        ),
                    ))
                    &&& exists|k: int|
                        0 <= k < old(self).subs_view().len() && old(self).subs_view()[k]
                            == (sub_id@, u) && final(self).subs_view() == old(
                            self,
                        ).subs_view().remove(k)
                },
                None => *final(self) == *old(self) && actions@.len() == 0,
            },
    {
        let mut actions: Vec<Action> = Vec::new();
        if !self.running {
            return actions;
        }
        proof {
            lemma_view_subs(self.subs@);
            assert(self.subs_view().skip(0) =~= self.subs_view());
        }
        let ghost m = self.subs_view();
        let n = self.subs.len();
        let mut k: usize = 0;
        while k < n
            invariant
                k <= n,
                n == self.subs@.len(),
                *self == *old(self),
                self.wf(),
                self.running,
                m == self.subs_view(),
                m.len() == self.subs@.len(),
                forall|i: int|
                    0 <= i < self.subs@.len() ==> m[i] == (
                        self.subs@[i].0@,
                        self.subs@[i].1@,
                    ),
                subs_lookup(m, sub_id@) == subs_lookup(m.skip(k as int), sub_id@),
                actions@.len() == 0,
            decreases n - k,
        {
            if id_eq(&self.subs[k].0, sub_id) {
                proof {
                    assert(m.skip(k as int)[0] == m[k as int]);
                    assert(subs_lookup(m.skip(k as int), sub_id@) == Some(
                        m[k as int].1,
                    ));
                }
                let unsub_method = self.subs[k].1.clone();
                let mut pvec: Vec<JsonValue> = Vec::new();
                pvec.push(crate::request::id_to_value(sub_id));
                proof {
                    assert(pvec@.drop_first() =~= Seq::<JsonValue>::empty());
                    assert(crate::json::view_elems(pvec@.drop_first()) =~= Seq::<
                        crate::json::JsonV,
                    >::empty());
                    assert(crate::json::view_elems(pvec@) =~= seq![id_jsonv(sub_id@)]);
                }
                let nf = Notification {
                    jsonrpc: Version::V2,
                    method: unsub_method,
                    params: Params::Array(pvec),
                };
                let frame = nf.to_json();
                self.subs.remove(k);
                actions.push(Action::WriteFrame(frame));
                proof {
                    lemma_view_subs_remove(old(self).subs@, k as int);
                    assert(final(self).subs_view() == old(self).subs_view().remove(
                        k as int,
                    ));
                }
                return actions;
            }
            proof {
                assert(m.skip(k as int)[0] == m[k as int]);
                assert(m.skip(k as int).drop_first() =~= m.skip(k + 1));
            }
            k = k + 1;
        }
        proof {
            assert(m.skip(n as int).len() == 0);
        }
        actions
    }

    /// Ends the session: every outstanding waiter is drained with
    /// `RestartNeeded` carrying the reason, every subscription stream is
    /// closed, and the engine stops accepting work.
    pub fn terminate(&mut self, reason: &str) -> (actions: Vec<Action>)
        requires
            old(self).wf(),
        ensures
            final(self).wf(),
            !final(self).spec_connected(),
            final(self).max_slots() == old(self).max_slots(),
            final(self).spec_close_reason() == reason@,
            forall|i: int| final(self).pending_at(i) is None,
            final(self).batch_count() == 0,
            forall|b: int| final(self).batch_at(b) is None,
            final(self).subs_view().len() == 0,
            drained(*old(self), actions@, reason@),
    {
        let mut actions: Vec<Action> = Vec::new();
        self.running = false;
        self.close_reason = reason.to_owned();
        let np = self.pending.len();
        let mut i: usize = 0;
        while i < np
            invariant
                i <= np,
                np == self.pending@.len(),
                self.pending@.len() == old(self).pending@.len(),
                self.alloc == old(self).alloc,
                self.batches == old(self).batches,
                self.subs == old(self).subs,
                !self.running,
                self.close_reason@ == reason@,
                forall|k: int| 0 <= k < i ==> self.pending@[k] is None,
                forall|k: int| i <= k < np ==> self.pending@[k] == old(self).pending@[k],
                forall|k: int|
                    #![trigger old(self).pending@[k]]
                    0 <= k < i ==> (old(self).pending@[k] matches Some(
                        Pending::Single { token },
                    ) ==> has_restart_failure(actions@, token, reason@)),
                forall|k: int|
                    #![trigger old(self).pending@[k]]
                    0 <= k < i ==> (old(self).pending@[k] matches Some(
                        Pending::Subscribe { token, unsub_method },
                    ) ==> has_restart_failure(actions@, token, reason@)),
            decreases np - i,
        {
            let ghost prev_actions = actions@;
            match &self.pending[i] {
                Some(Pending::Single { token }) => {
                    let tok = *token;
                    actions.push(
                        Action::ReplyFailure {
                            token: tok,
                            error: Error::RestartNeeded(reason.to_owned()),
                        },
                    );
                },
                Some(Pending::Subscribe { token, unsub_method }) => {
                    let tok = *token;
                    actions.push(
                        Action::ReplyFailure {
                            token: tok,
                            error: Error::RestartNeeded(reason.to_owned()),
                        },
                    );
                },
                _ => {},
            }
            proof {
                lemma_promises_monotone(prev_actions, actions@);
                match old(self).pending@[i as int] {
                    Some(Pending::Single { token: tt }) => {
                        assert(actions@[prev_actions.len() as int] matches
                            Action::ReplyFailure { token: t, error } && t == tt && (
                        error matches Error::RestartNeeded(rr) && rr@ == reason@));
                        assert(has_restart_failure(actions@, tt, reason@));
                    },
                    Some(Pending::Subscribe { token: tt, unsub_method: uu }) => {
                        assert(actions@[prev_actions.len() as int] matches
                            Action::ReplyFailure { token: t, error } && t == tt && (
                        error matches Error::RestartNeeded(rr) && rr@ == reason@));
                        assert(has_restart_failure(actions@, tt, reason@));
                    },
                    _ => {},
                }
            }
            self.pending.set(i, None);
            i = i + 1;
        }
        let nb = self.batches.len();
        let mut b: usize = 0;
        while b < nb
            invariant
                b <= nb,
                nb == self.batches@.len(),
                self.batches == old(self).batches,
                !self.running,
                self.close_reason@ == reason@,
                forall|k: int|
                    #![trigger old(self).pending@[k]]
                    0 <= k < old(self).pending@.len() ==> (old(self).pending@[k] matches
                    Some(Pending::Single { token }) ==> has_restart_failure(
                        actions@,
                        token,
                        reason@,
                    )),
                forall|k: int|
                    #![trigger old(self).pending@[k]]
                    0 <= k < old(self).pending@.len() ==> (old(self).pending@[k] matches
                    Some(Pending::Subscribe { token, unsub_method })
                        ==> has_restart_failure(actions@, token, reason@)),
                forall|k: int|
                    #![trigger old(self).batches@[k]]
                    0 <= k < b && old(self).batches@[k] is Some ==> has_restart_failure(
                        actions@,
                        old(self).batches@[k]->0.token,
                        reason@,
                    ),
            decreases nb - b,
        {
            let ghost prev_actions = actions@;
            match &self.batches[b] {
                Some(be) => {
                    let tok = be.token;
                    actions.push(
                        Action::ReplyFailure {
                            token: tok,
                            error: Error::RestartNeeded(reason.to_owned()),
                        },
                    );
                },
                None => {},
            }
            proof {
                lemma_promises_monotone(prev_actions, actions@);
                match old(self).batches@[b as int] {
                    Some(be2) => {
                        assert(actions@[prev_actions.len() as int] matches
                            Action::ReplyFailure { token: t, error } && t == be2.token
                            && (error matches Error::RestartNeeded(rr) && rr@
                            == reason@));
                        assert(has_restart_failure(actions@, be2.token, reason@));
                    },
                    None => {},
                }
            }
            b = b + 1;
        }
        self.batches = Vec::new();
        proof {
            lemma_view_subs(self.subs@);
        }
        let ns = self.subs.len();
        let mut s: usize = 0;
        while s < ns
            invariant
                s <= ns,
                ns == self.subs@.len(),
                self.subs == old(self).subs,
                !self.running,
                self.close_reason@ == reason@,
                forall|i2: int|
                    0 <= i2 < self.subs@.len() ==> view_subs(self.subs@)[i2] == (
                        self.subs@[i2].0@,
                        self.subs@[i2].1@,
                    ),
                view_subs(self.subs@).len() == self.subs@.len(),
                forall|k: int|
                    #![trigger old(self).pending@[k]]
                    0 <= k < old(self).pending@.len() ==> (old(self).pending@[k] matches
                    Some(Pending::Single { token }) ==> has_restart_failure(
                        actions@,
                        token,
                        reason@,
                    )),
                forall|k: int|
                    #![trigger old(self).pending@[k]]
                    0 <= k < old(self).pending@.len() ==> (old(self).pending@[k] matches
                    Some(Pending::Subscribe { token, unsub_method })
                        ==> has_restart_failure(actions@, token, reason@)),
                forall|k: int|
                    #![trigger old(self).batches@[k]]
                    0 <= k < old(self).batches@.len() && old(self).batches@[k] is Some
                        ==> has_restart_failure(
                        actions@,
                        old(self).batches@[k]->0.token,
                        reason@,
                    ),
                forall|k: int|
                    #![trigger old(self).subs_view()[k]]
                    0 <= k < s ==> has_close(actions@, old(self).subs_view()[k].0),
            decreases ns - s,
        {
            let ghost prev_actions = actions@;
            let sid = self.subs[s].0.duplicate();
            actions.push(Action::CloseSubscription { sub_id: sid });
            proof {
                lemma_promises_monotone(prev_actions, actions@);
                assert(old(self).subs_view() == view_subs(old(self).subs@));
                assert(actions@[prev_actions.len() as int] matches
                    Action::CloseSubscription { sub_id } && sub_id@ == old(
                    self).subs_view()[s as int].0);
                assert(has_close(actions@, old(self).subs_view()[s as int].0));
            }
            s = s + 1;
        }
        self.subs = Vec::new();
        proof {
            assert(view_subs(Seq::<(Id, String)>::empty()) =~= Seq::<
                (IdV, Seq<char>),
            >::empty());
            assert(old(self).subs_view() == view_subs(old(self).subs@));
            assert(old(self).subs_view().len() == old(self).subs@.len());
        }
        actions
    }

    /// Submits a batch of calls. One ID is acquired per call,
    /// transactionally: if the pool cannot seat the whole batch, every ID
    /// taken is returned and the call fails with `MaxSlotsExceeded`.
    /// Otherwise one frame holding the whole batch, in caller-input order,
    /// is written to the transport, and a batch record remembers which ID
    /// answers which input slot. An empty batch resolves at once with no
    /// outcomes.
    pub fn batch_request(&mut self, calls: Vec<(String, Params)>, token: u64) -> (actions:
        Vec<Action>)
        requires
            old(self).wf(),
        ensures
            final(self).wf(),
            final(self).max_slots() == old(self).max_slots(),
            final(self).spec_connected() == old(self).spec_connected(),
            !old(self).spec_connected() ==> *final(self) == *old(self) && actions@.len()
                == 1 && (actions@[0] matches Action::ReplyFailure { token: t, error }
                && t == token && (error matches Error::RestartNeeded(rr) && rr@ == old(
                self,
            ).spec_close_reason())),
            old(self).spec_connected() && calls@.len() == 0 ==> *final(self) == *old(
                self,
            ) && actions@.len() == 1 && (actions@[0] matches Action::ReplyBatch {
                token: t,
                outcomes,
            } && t == token && outcomes@.len() == 0),
            old(self).spec_connected() && calls@.len() > 0 && old(self).in_flight()
                + calls@.len() > old(self).max_slots() ==> {
                &&& final(self).in_flight() == old(self).in_flight()
                &&& forall|j: int| final(self).pending_at(j) == old(self).pending_at(j)
                &&& forall|id: int|
                    final(self).slot_in_use(id) == old(self).slot_in_use(id)
                &&& final(self).subs_view() == old(self).subs_view()
                &&& final(self).batch_count() == old(self).batch_count()
                &&& actions@.len() == 1
                &&& (actions@[0] matches Action::ReplyFailure { token: t, error } && t
                    == token && error matches Error::MaxSlotsExceeded)
            },
            old(self).spec_connected() && calls@.len() > 0 && old(self).in_flight()
                + calls@.len() <= old(self).max_slots() ==> {
                &&& final(self).in_flight() == old(self).in_flight() + calls@.len()
                &&& final(self).subs_view() == old(self).subs_view()
                &&& final(self).batch_count() == old(self).batch_count() + 1
                &&& actions@.len() == 1
                &&& exists|ids: Seq<u64>|
                    {
                        &&& #[trigger] ids.len() == calls@.len()
                        &&& (forall|j: int|
                            0 <= j < ids.len() ==> #[trigger] ids[j] < old(
                                self,
                            ).max_slots() && !old(self).slot_in_use(ids[j] as int))
                        &&& (forall|j1: int, j2: int|
                            0 <= j1 < j2 < ids.len() ==> #[trigger] ids[j1] != #[trigger] ids[j2])
                        &&& (forall|j: int, i: int|
                            0 <= j < ids.len() && 0 <= i < ids[j] as int && !old(
                                self,
                            ).slot_in_use(i) ==> #[trigger] ids_contain(ids.take(j), i))
                        &&& (forall|i: int|
                            !ids_contain(ids, i) ==> final(self).pending_at(i) == old(
                                self,
                            ).pending_at(i))
                        &&& (forall|i: int|
                            #![trigger final(self).slot_in_use(i)]
                            final(self).slot_in_use(i) == (old(self).slot_in_use(i)
                                || ids_contain(ids, i)))
                        &&& (forall|j: int|
                            0 <= j < ids.len() ==> final(self).pending_at(
                                #[trigger] ids[j] as int,
                            ) == Some(
                                Pending::InBatch {
                                    batch: old(self).batch_count() as usize,
                                    slot: j as usize,
                                },
                            ))
                        &&& (final(self).batch_at(old(self).batch_count() as int) matches
                            Some(be) && be.token == token && be.ids@ == ids
                            && be.remaining == calls@.len() && be.results@.len()
                            == calls@.len() && (forall|j: int|
                            0 <= j < calls@.len() ==> be.results@[j] is None))
                        &&& (actions@[0] matches Action::WriteFrame(f) && f@ == spec_text(
                            crate::request::request_jsonv(
                                crate::request::RequestV::Batch(
                                    Seq::new(
                                        calls@.len(),
                                        |j: int|
                                            crate::request::CallV::MethodCall(
                                                MethodCallV {
                                                    method: calls@[j].0@,
                                                    params: calls@[j].1@,
                                                    id: IdV::Num(ids[j]),
                                                },
                                            ),
                                    ),
                                ),
                            ),
                        ))
                    }
                &&& forall|i: int|
                    old(self).pending_at(i) is Some ==> final(self).pending_at(i) == old(
                        self,
                    ).pending_at(i)
                &&& forall|b: int|
                    b != old(self).batch_count() as int ==> final(self).batch_at(b)
                        == old(self).batch_at(b)
            },
    {
        if !self.running {
            let mut actions: Vec<Action> = Vec::new();
            actions.push(
                Action::ReplyFailure {
                    token,
                    error: Error::RestartNeeded(self.close_reason.clone()),
                },
            );
            return actions;
        }
        let kk = calls.len();
        if kk == 0 {
            let mut actions: Vec<Action> = Vec::new();
            actions.push(Action::ReplyBatch { token, outcomes: Vec::new() });
            return actions;
        }
        // take one ID per call; on a shortage give back what was taken
        let mut ids: Vec<u64> = Vec::new();
        let mut j: usize = 0;
        let mut short = false;
        while j < kk && !short
            invariant
                j <= kk,
                ids@.len() == j,
                self.pending == old(self).pending,
                self.batches == old(self).batches,
                self.subs == old(self).subs,
                self.running == old(self).running,
                self.close_reason == old(self).close_reason,
                self.alloc.wf(),
                self.alloc.max_slots() == old(self).alloc.max_slots(),
                self.alloc.in_use() == old(self).alloc.in_use() + j,
                forall|j2: int|
                    0 <= j2 < j ==> #[trigger] ids@[j2] < old(self).alloc.max_slots()
                        && !old(self).alloc.slot_used(ids@[j2] as int),
                forall|id: int|
                    #![trigger self.alloc.slot_used(id)]
                    self.alloc.slot_used(id) == (old(self).alloc.slot_used(id)
                        || ids_contain(ids@, id)),
                forall|j1: int, j2: int|
                    0 <= j1 < j2 < j ==> #[trigger] ids@[j1] != #[trigger] ids@[j2],
                forall|j2: int, i2: int|
                    0 <= j2 < j && 0 <= i2 < ids@[j2] as int && !old(
                        self,
                    ).alloc.slot_used(i2) ==> #[trigger] ids_contain(ids@.take(j2), i2),
                short ==> j < kk && self.alloc.in_use() == self.alloc.max_slots(),
            decreases kk - j, (if short { 0int } else { 1int }),
        {
            let ghost prev_ids = ids@;
            let ghost prev_alloc = self.alloc;
            match self.alloc.acquire() {
                Some(id) => {
                    proof {
                        assert(!ids_contain(prev_ids, id as int));
                    }
                    ids.push(id);
                    proof {
                        assert(forall|j2: int|
                            0 <= j2 < prev_ids.len() ==> prev_ids[j2] == #[trigger] ids@[
                            j2]);
                        assert forall|j2: int, i2: int|
                            0 <= j2 < j + 1 && 0 <= i2 < ids@[j2] as int && !old(
                                self,
                            ).alloc.slot_used(i2) implies #[trigger] ids_contain(
                            ids@.take(j2),
                            i2,
                        ) by {
                            if j2 < j {
                                assert(ids@.take(j2) =~= prev_ids.take(j2));
                                assert(ids_contain(prev_ids.take(j2), i2));
                            } else {
                                assert(ids@[j2] == id);
                                assert(prev_alloc.slot_used(i2));
                                assert(ids_contain(prev_ids, i2));
                                assert(ids@.take(j2) =~= prev_ids);
                            }
                        }
                        assert forall|id2: int|
                            #![trigger self.alloc.slot_used(id2)]
                            self.alloc.slot_used(id2) == (old(self).alloc.slot_used(id2)
                                || ids_contain(ids@, id2)) by {
                            if ids_contain(prev_ids, id2) {
                                let wj = choose|wj: int|
                                    0 <= wj < prev_ids.len() && #[trigger] prev_ids[
                                    wj] as int == id2;
                                assert(ids@[wj] as int == id2);
                                assert(ids_contain(ids@, id2));
                            }
                            if id2 == id as int {
                                assert(ids@[ids@.len() - 1] as int == id2);
                                assert(ids_contain(ids@, id2));
                            }
                            if ids_contain(ids@, id2) {
                                let wj = choose|wj: int|
                                    0 <= wj < ids@.len() && #[trigger] ids@[wj] as int
                                        == id2;
                                if wj < prev_ids.len() {
                                    assert(prev_ids[wj] as int == id2);
                                    assert(ids_contain(prev_ids, id2));
                                } else {
                                    assert(id2 == id as int);
                                }
                            }
                        }
                    }
                    j = j + 1;
                },
                None => {
                    short = true;
                },
            }
        }
        if short {
            // give back what was taken
            proof {
                assert(ids@.skip(0) =~= ids@);
            }
            let rn = ids.len();
            let mut r: usize = 0;
            while r < rn
                invariant
                    r <= rn,
                    rn == ids@.len(),
                    self.pending == old(self).pending,
                    self.batches == old(self).batches,
                    self.subs == old(self).subs,
                    self.running == old(self).running,
                    self.close_reason == old(self).close_reason,
                    self.alloc.wf(),
                    self.alloc.max_slots() == old(self).alloc.max_slots(),
                    self.alloc.in_use() == old(self).alloc.in_use() + rn - r,
                    forall|j2: int|
                        0 <= j2 < rn ==> #[trigger] ids@[j2] < old(
                            self,
                        ).alloc.max_slots() && !old(self).alloc.slot_used(
                            ids@[j2] as int,
                        ),
                    forall|j1: int, j2: int|
                        0 <= j1 < j2 < rn ==> #[trigger] ids@[j1] != #[trigger] ids@[j2],
                    forall|id: int|
                        #![trigger self.alloc.slot_used(id)]
                        self.alloc.slot_used(id) == (old(self).alloc.slot_used(id)
                            || ids_contain(ids@.skip(r as int), id)),
                decreases rn - r,
            {
                proof {
                    assert(ids@.skip(r as int)[0] as int == ids@[r as int] as int);
                    assert(ids_contain(ids@.skip(r as int), ids@[r as int] as int));
                }
                self.alloc.release(ids[r]);
                proof {
                    assert forall|id: int|
                        #![trigger self.alloc.slot_used(id)]
                        self.alloc.slot_used(id) == (old(self).alloc.slot_used(id)
                            || ids_contain(ids@.skip(r + 1), id)) by {
                        if id == ids@[r as int] as int {
                            assert forall|wj: int|
                                0 <= wj < ids@.skip(r + 1).len() implies #[trigger] ids@.skip(
                                r + 1,
                            )[wj] as int != id by {
                                assert(ids@.skip(r + 1)[wj] == ids@[r + 1 + wj]);
                            }
                            assert(!ids_contain(ids@.skip(r + 1), id));
                        } else {
                            if ids_contain(ids@.skip(r + 1), id) {
                                let wj = choose|wj: int|
                                    0 <= wj < ids@.skip(r + 1).len() && #[trigger] ids@.skip(
                                    r + 1,
                                )[wj] as int == id;
                                assert(ids@.skip(r as int)[wj + 1] as int == id);
                                assert(ids_contain(ids@.skip(r as int), id));
                            }
                            if ids_contain(ids@.skip(r as int), id) {
                                let wj = choose|wj: int|
                                    0 <= wj < ids@.skip(r as int).len() && #[trigger] ids@.skip(
                                    r as int,
                                )[wj] as int == id;
                                assert(wj != 0);
                                assert(ids@.skip(r + 1)[wj - 1] as int == id);
                                assert(ids_contain(ids@.skip(r + 1), id));
                            }
                        }
                    }
                }
                r = r + 1;
            }
            proof {
                assert(forall|id: int| !ids_contain(ids@.skip(rn as int), id));
                old(self).alloc.lemma_in_use_bounded();
            }
            let mut actions: Vec<Action> = Vec::new();
            actions.push(
                Action::ReplyFailure { token, error: Error::MaxSlotsExceeded },
            );
            return actions;
        }
        proof {
            self.alloc.lemma_in_use_bounded();
        }
        let ghost ids0 = ids@;
        let ghost alloc1 = self.alloc;
        // build the batch record: one vacant slot per call, in caller order
        let mut results: Vec<Option<ReplyOutcome>> = Vec::new();
        let mut q: usize = 0;
        while q < kk
            invariant
                q <= kk,
                results@.len() == q,
                forall|i2: int| 0 <= i2 < q ==> results@[i2] is None,
            decreases kk - q,
        {
            results.push(None);
            q = q + 1;
        }
        proof {
            lemma_count_vacant_full(results@);
        }
        let mut ids_copy: Vec<u64> = Vec::new();
        let mut c: usize = 0;
        while c < kk
            invariant
                c <= kk,
                kk == ids@.len(),
                ids@ == ids0,
                ids_copy@ == ids0.take(c as int),
            decreases kk - c,
        {
            ids_copy.push(ids[c]);
            proof {
                assert(ids_copy@ =~= ids0.take(c + 1));
            }
            c = c + 1;
        }
        proof {
            assert(ids_copy@ =~= ids0);
        }
        let bslot = self.batches.len();
        self.batches.push(
            Some(BatchEntry { token, ids: ids_copy, results, remaining: kk }),
        );
        // register one waiter per slot, in caller-input order
        let np = self.pending.len();
        let ghost batches1 = self.batches@;
        let mut w: usize = 0;
        while w < kk
            invariant
                w <= kk,
                kk == ids@.len(),
                ids@ == ids0,
                np == self.pending@.len(),
                self.pending@.len() == old(self).pending@.len(),
                self.alloc == alloc1,
                self.batches@ == batches1,
                self.subs == old(self).subs,
                self.running == old(self).running,
                self.close_reason == old(self).close_reason,
                forall|j2: int|
                    0 <= j2 < kk ==> #[trigger] ids0[j2] < np as u64 && !old(
                        self,
                    ).alloc.slot_used(ids0[j2] as int),
                forall|j1: int, j2: int|
                    0 <= j1 < j2 < kk ==> #[trigger] ids0[j1] != #[trigger] ids0[j2],
                forall|j2: int|
                    0 <= j2 < w ==> self.pending@[#[trigger] ids0[j2] as int] == Some(
                        Pending::InBatch { batch: bslot, slot: j2 as usize },
                    ),
                forall|i2: int|
                    0 <= i2 < np && !ids_contain(ids0.take(w as int), i2)
                        ==> self.pending@[i2] == old(self).pending@[i2],
            decreases kk - w,
        {
            let id = ids[w];
            let idx2 = id as usize;
            proof {
                assert(id < np as u64);
                assert(idx2 as int == id as int);
                assert(ids0.take(w + 1)[w as int] as int == id as int);
                assert(ids_contain(ids0.take(w + 1), id as int));
            }
            self.pending.set(idx2, Some(Pending::InBatch { batch: bslot, slot: w }));
            proof {
                assert forall|i2: int|
                    0 <= i2 < np && !ids_contain(ids0.take(w + 1), i2) implies
                    self.pending@[i2] == old(self).pending@[i2] by {
                    assert forall|wj: int|
                        0 <= wj < w implies #[trigger] ids0.take(w as int)[wj] as int
                        != i2 by {
                        assert(ids0.take(w + 1)[wj] == ids0.take(w as int)[wj]);
                    }
                    assert(!ids_contain(ids0.take(w as int), i2));
                    assert(i2 != id as int);
                }
            }
            w = w + 1;
        }
        // frame the whole batch in caller-input order
        let ghost calls0 = calls@;
        let mut calls_vec: Vec<crate::request::Call> = Vec::new();
        let mut cv = calls;
        let mut x: usize = 0;
        while x < kk
            invariant
                x <= kk,
                kk == ids0.len(),
                ids@ == ids0,
                kk == calls0.len(),
                cv@ =~= calls0.skip(x as int),
                calls_vec@.len() == x,
                forall|i2: int|
                    0 <= i2 < x ==> #[trigger] calls_vec@[i2]@
                        == crate::request::CallV::MethodCall(
                        MethodCallV {
                            method: calls0[i2].0@,
                            params: calls0[i2].1@,
                            id: IdV::Num(ids0[i2]),
                        },
                    ),
            decreases kk - x,
        {
            let (m, p) = cv.remove(0);
            proof {
                assert(calls0.skip(x as int)[0] == calls0[x as int]);
                assert(cv@ =~= calls0.skip(x + 1));
            }
            calls_vec.push(
                crate::request::Call::MethodCall(
                    MethodCall {
                        jsonrpc: Version::V2,
                        method: m,
                        params: p,
                        id: Id::Num(ids[x]),
                    },
                ),
            );
            x = x + 1;
        }
        proof {
            crate::request::lemma_view_calls(calls_vec@);
            assert(crate::request::view_calls(calls_vec@) =~= Seq::new(
                calls0.len(),
                |j: int|
                    crate::request::CallV::MethodCall(
                        MethodCallV {
                            method: calls0[j].0@,
                            params: calls0[j].1@,
                            id: IdV::Num(ids0[j]),
                        },
                    ),
            ));
        }
        let req = crate::request::Request::Batch(calls_vec);
        let frame = req.to_json();
        let mut actions: Vec<Action> = Vec::new();
        actions.push(Action::WriteFrame(frame));
        proof {
            assert(ids0.take(kk as int) =~= ids0);
            assert forall|i2: int| !ids_contain(ids0, i2) implies self.pending_at(i2)
                == old(self).pending_at(i2) by {
                if 0 <= i2 < np as int {
                    assert(!ids_contain(ids0.take(kk as int), i2));
                    assert(self.pending@[i2] == old(self).pending@[i2]);
                }
            }
            assert(self.alloc == alloc1);
            assert forall|i2: int|
                self.slot_in_use(i2) == (old(self).slot_in_use(i2) || ids_contain(
                    ids0,
                    i2,
                )) by {
                assert(alloc1.slot_used(i2) == (old(self).alloc.slot_used(i2)
                    || ids_contain(ids0, i2)));
            }
            assert(self.batches@.len() == old(self).batches@.len() + 1);
            assert forall|b2: int|
                b2 != old(self).batch_count() as int implies self.batch_at(b2) == old(
                self,
            ).batch_at(b2) by {
                if 0 <= b2 < old(self).batches@.len() {
                    assert(self.batches@[b2] == old(self).batches@[b2]);
                }
            }
        }
        actions
    }

    /// Delivers a server-pushed subscription notification. A payload for a
    /// live subscription goes to that subscription's consumer; a payload for
    /// an unknown subscription is silently dropped (stragglers after an
    /// unsubscribe are expected).
    pub fn handle_notification(&mut self, notif: SubNotif) -> (actions: Vec<Action>)
        requires
            old(self).wf(),
            old(self).spec_connected(),
        ensures
            final(self).wf(),
            notif_step(*old(self), notif@, *final(self), actions@),
    {
        proof {
            lemma_view_subs(self.subs@);
            assert(self.subs_view().skip(0) =~= self.subs_view());
        }
        let ghost m = self.subs_view();
        let n = self.subs.len();
        let mut k: usize = 0;
        while k < n
            invariant
                k <= n,
                n == self.subs@.len(),
                *self == *old(self),
                self.wf(),
                m == self.subs_view(),
                m.len() == self.subs@.len(),
                forall|i: int|
                    0 <= i < self.subs@.len() ==> m[i] == (
                        self.subs@[i].0@,
                        self.subs@[i].1@,
                    ),
                subs_lookup(m, notif.subscription@) == subs_lookup(
                    m.skip(k as int),
                    notif.subscription@,
                ),
            decreases n - k,
        {
            if id_eq(&self.subs[k].0, &notif.subscription) {
                proof {
                    assert(m.skip(k as int)[0] == m[k as int]);
                }
                let mut actions: Vec<Action> = Vec::new();
                actions.push(
                    Action::DeliverSub {
                        sub_id: notif.subscription,
                        payload: notif.result,
                    },
                );
                return actions;
            }
            proof {
                assert(m.skip(k as int)[0] == m[k as int]);
                assert(m.skip(k as int).drop_first() =~= m.skip(k + 1));
            }
            k = k + 1;
        }
        proof {
            assert(m.skip(n as int).len() == 0);
        }
        Vec::new()
    }

    /// Consumes one transport payload. Text that is not well-formed JSON is a
    /// protocol failure: the session terminates and every waiter drains with
    /// the parse failure as the reason. Well-formed JSON with no expected
    /// shape is dropped. A reply, a batch of replies, or a subscription
    /// notification is dispatched to its waiters; batch items are handled in
    /// order until the session terminates.
    pub fn on_frame(&mut self, text: &str) -> (actions: Vec<Action>)
        requires
            old(self).wf(),
        ensures
            final(self).wf(),
            final(self).max_slots() == old(self).max_slots(),
            !old(self).spec_connected() ==> *final(self) == *old(self) && actions@.len()
                == 0,
            old(self).spec_connected() ==> match crate::response::sp_decode_frame(
                text@,
            ) {
                FrameDecodeV::Malformed => {
                    &&& !final(self).spec_connected()
                    &&& final(self).spec_close_reason() == "Parse error"@
                    &&& forall|i: int| final(self).pending_at(i) is None
                    &&& final(self).batch_count() == 0
                    &&& final(self).subs_view().len() == 0
                    &&& drained(*old(self), actions@, "Parse error"@)
                },
                FrameDecodeV::Unexpected => *final(self) == *old(self) && actions@.len()
                    == 0,
                FrameDecodeV::Frame(f) => match f {
                    IncomingV::Reply(r) => reply_step(
                        *old(self),
                        r,
                        *final(self),
                        actions@,
                    ),
                    IncomingV::Notif(nv) => notif_step(
                        *old(self),
                        nv,
                        *final(self),
                        actions@,
                    ),
                    IncomingV::Batch(rsv) => batch_steps(
                        *old(self),
                        rsv,
                        *final(self),
                        actions@,
                    ),
                },
            },
    {
        if !self.running {
            return Vec::new();
        }
        match crate::response::decode_frame(text) {
            FrameDecode::Malformed => self.terminate("Parse error"),
            FrameDecode::Unexpected => Vec::new(),
            FrameDecode::Frame(f) => match f {
                Incoming::Reply(resp) => self.handle_response(resp),
                Incoming::Notif(n) => self.handle_notification(n),
                Incoming::Batch(rs) => {
                    let ghost rsv = crate::response::view_responses(rs@);
                    proof {
                        crate::response::lemma_view_responses(rs@);
                        assert(rsv.take(0) =~= Seq::<ResponseV>::empty());
                    }
                    let mut actions: Vec<Action> = Vec::new();
                    let mut rs = rs;
                    let nn = rs.len();
                    let mut k: usize = 0;
                    while k < nn
                        invariant
                            k <= nn,
                            nn == rsv.len(),
                            nn - k == rs@.len(),
                            self.wf(),
                            self.max_slots() == old(self).max_slots(),
                            forall|i: int|
                                0 <= i < rs@.len() ==> (#[trigger] rs@[i])@ == rsv[
                                k + i],
                            batch_steps(*old(self), rsv.take(k as int), *self, actions@),
                        decreases nn - k,
                    {
                        let ghost mid = *self;
                        let ghost prev_actions = actions@;
                        let ghost prev_rs = rs@;
                        let r = rs.remove(0);
                        proof {
                            assert(r@ == rsv[k as int]);
                            assert(forall|i: int|
                                0 <= i < rs@.len() ==> #[trigger] rs@[i] == prev_rs[
                                i + 1]);
                        }
                        if self.is_connected() {
                            let mut acts = self.handle_response(r);
                            let ghost delta = acts@;
                            actions.append(&mut acts);
                            proof {
                                let cut = prev_actions.len() as int;
                                assert(actions@ == prev_actions + delta);
                                assert(rsv.take(k + 1).drop_last() =~= rsv.take(k as int));
                                assert(rsv.take(k + 1).last() == rsv[k as int]);
                                assert(actions@.take(cut) =~= prev_actions);
                                assert(actions@.skip(cut) =~= delta);
                                assert(batch_steps(
                                    *old(self),
                                    rsv.take(k + 1).drop_last(),
                                    mid,
                                    actions@.take(cut),
                                ));
                                assert(batch_item_step(
                                    mid,
                                    rsv.take(k + 1).last(),
                                    *self,
                                    actions@.skip(cut),
                                ));
                                lemma_batch_steps_extend(
                                    *old(self),
                                    rsv.take(k + 1),
                                    mid,
                                    *self,
                                    actions@,
                                    cut,
                                );
                            }
                        } else {
                            proof {
                                let cut = prev_actions.len() as int;
                                assert(rsv.take(k + 1).drop_last() =~= rsv.take(k as int));
                                assert(rsv.take(k + 1).last() == rsv[k as int]);
                                assert(actions@.take(cut) =~= prev_actions);
                                assert(actions@.skip(cut) =~= Seq::<Action>::empty());
                                assert(batch_steps(
                                    *old(self),
                                    rsv.take(k + 1).drop_last(),
                                    mid,
                                    actions@.take(cut),
                                ));
                                assert(batch_item_step(
                                    mid,
                                    rsv.take(k + 1).last(),
                                    *self,
                                    actions@.skip(cut),
                                ));
                                lemma_batch_steps_extend(
                                    *old(self),
                                    rsv.take(k + 1),
                                    mid,
                                    *self,
                                    actions@,
                                    cut,
                                );
                            }
                        }
                        k = k + 1;
                    }
                    proof {
                        assert(rsv.take(nn as int) =~= rsv);
                    }
                    actions
                },
            },
        }
    }

    /// Dispatches one server reply to its waiter. A reply to a single call
    /// resolves that caller with the server's outcome and recycles the ID; a
    /// reply to a subscribe call installs the subscription (or rejects an
    /// implausible identifier); a reply to a batch slot records its outcome
    /// and, once the last slot fills, resolves the batch in caller-input
    /// order. A reply whose ID was never issued is a protocol violation: the
    /// session terminates and every waiter drains.
    pub fn handle_response(&mut self, resp: Response) -> (actions: Vec<Action>)
        requires
            old(self).wf(),
            old(self).spec_connected(),
        ensures
            final(self).wf(),
            reply_step(*old(self), resp@, *final(self), actions@),
    {
        let n: u64 = match &resp.id {
            Id::Num(n) => *n,
            _ => {
                return self.terminate("Invalid request ID");
            },
        };
        let np = self.pending.len();
        if n >= np as u64 {
            return self.terminate("Invalid request ID");
        }
        let idx = n as usize;
        match &self.pending[idx] {
            None => {
                return self.terminate("Invalid request ID");
            },
            Some(Pending::Single { token }) => {
                let tok = *token;
                self.pending.set(idx, None);
                self.alloc.release(n);
                let mut actions: Vec<Action> = Vec::new();
                match resp.outcome {
                    ReplyOutcome::Success(v) => {
                        actions.push(Action::ReplySuccess { token: tok, value: v });
                    },
                    ReplyOutcome::Failure(se) => {
                        actions.push(
                            Action::ReplyFailure { token: tok, error: Error::Request(se) },
                        );
                    },
                }
                actions
            },
            Some(Pending::Subscribe { token, unsub_method }) => {
                let tok = *token;
                let um = unsub_method.clone();
                let ghost u0 = um@;
                self.pending.set(idx, None);
                self.alloc.release(n);
                let mut actions: Vec<Action> = Vec::new();
                match resp.outcome {
                    ReplyOutcome::Success(v) => match crate::response::sub_id_of_value(
                        &v,
                    ) {
                        Some(sid) => {
                            let sid2 = sid.duplicate();
                            let ghost prev_subs = self.subs@;
                            self.subs.push((sid, um));
                            proof {
                                lemma_view_subs_push(prev_subs, (sid, um));
                            }
                            actions.push(
                                Action::SubscribeConfirmed { token: tok, sub_id: sid2 },
                            );
                        },
                        None => {
                            actions.push(
                                Action::ReplyFailure {
                                    token: tok,
                                    error: Error::InvalidSubscriptionId,
                                },
                            );
                        },
                    },
                    ReplyOutcome::Failure(se) => {
                        actions.push(
                            Action::ReplyFailure { token: tok, error: Error::Request(se) },
                        );
                    },
                }
                actions
            },
            Some(Pending::InBatch { batch, slot }) => {
                let b = *batch;
                let s = *slot;
                self.pending.set(idx, None);
                self.alloc.release(n);
                let mut taken: Option<BatchEntry> = None;
                core::mem::swap(&mut self.batches[b], &mut taken);
                let mut be = match taken {
                    Some(be) => be,
                    None => {
                        // a waiter points only at a live batch record
                        proof {
                            assert(false);
                        }
                        return Vec::new();
                    },
                };
                let ghost orig_results = be.results@;
                proof {
                    lemma_count_vacant_pos(orig_results, s as int);
                    lemma_count_vacant_update(orig_results, s as int, resp.outcome);
                }
                be.results.set(s, Some(resp.outcome));
                be.remaining = be.remaining - 1;
                if be.remaining == 0 {
                    let tok = be.token;
                    let rn = be.results.len();
                    proof {
                        lemma_count_vacant_zero(be.results@);
                    }
                    let mut outcomes: Vec<ReplyOutcome> = Vec::new();
                    let mut j: usize = 0;
                    while j < rn
                        invariant
                            j <= rn,
                            rn == be.results@.len(),
                            outcomes@.len() == j,
                            forall|i2: int|
                                j <= i2 < rn ==> be.results@[i2] == orig_results.update(
                                    s as int,
                                    Some(resp.outcome),
                                )[i2],
                            forall|i2: int|
                                0 <= i2 < j ==> orig_results.update(
                                    s as int,
                                    Some(resp.outcome),
                                )[i2] == Some(#[trigger] outcomes@[i2]),
                            forall|i2: int|
                                j <= i2 < rn ==> be.results@[i2] is Some,
                        decreases rn - j,
                    {
                        let mut h: Option<ReplyOutcome> = None;
                        core::mem::swap(&mut be.results[j], &mut h);
                        match h {
                            Some(o) => {
                                outcomes.push(o);
                            },
                            None => {
                                // with no vacancy left, every slot holds an outcome
                                proof {
                                    assert(false);
                                }
                            },
                        }
                        j = j + 1;
                    }
                    proof {
                        assert forall|i2: int| 0 <= i2 < self.pending@.len() implies ((
                        #[trigger] self.pending@[i2]) matches Some(
                            Pending::InBatch { batch: b2, slot: s2 },
                        ) ==> b2 != b) by {
                            match self.pending@[i2] {
                                Some(Pending::InBatch { batch: b2, slot: s2 }) => {
                                    if b2 == b {
                                        assert(self.pending@[i2] == old(
                                            self,
                                        ).pending@[i2]);
                                        assert(old(
                                            self,
                                        ).batches@[b as int]->0.ids@[s2 as int]
                                            == i2 as u64);
                                        assert(old(self).batches@[b as int]->0.ids@[
                                            s as int] == n);
                                        assert(s2 != s);
                                        assert(old(self).batches@[b as int]->0.results@[
                                            s2 as int] is None);
                                        lemma_count_vacant_two(
                                            orig_results,
                                            s as int,
                                            s2 as int,
                                        );
                                        assert(false);
                                    }
                                },
                                _ => {},
                            }
                        }
                    }
                    let mut actions: Vec<Action> = Vec::new();
                    actions.push(Action::ReplyBatch { token: tok, outcomes });
                    actions
                } else {
                    self.batches.set(b, Some(be));
                    Vec::new()
                }
            },
        }
    }
}

/// Appending one record appends exactly that record to the model.
pub proof fn lemma_view_subs_push(s: Seq<(Id, String)>, x: (Id, String))
    ensures
        view_subs(s.push(x)) == view_subs(s).push((x.0@, x.1@)),
{
    lemma_view_subs(s);
    lemma_view_subs(s.push(x));
    assert(view_subs(s.push(x)) =~= view_subs(s).push((x.0@, x.1@)));
}

/// Removing one record removes exactly that record from the model.
pub proof fn lemma_view_subs_remove(s: Seq<(Id, String)>, k: int)
    requires
        0 <= k < s.len(),
    ensures
        view_subs(s.remove(k)) == view_subs(s).remove(k),
    decreases s.len(),
{
    lemma_view_subs(s);
    lemma_view_subs(s.remove(k));
    assert(view_subs(s.remove(k)) =~= view_subs(s).remove(k));
}

} // verus!
