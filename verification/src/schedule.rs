//! Several appends to one tree, under way at the same time.
//!
//! Each call goes through its own steps; the tree store and the emitter
//! answer one request at a time, in whatever order the requests of the calls
//! reach them. A schedule is such an order. Whatever the schedule, every call
//! whose leaf the store accepted has a leaf index of its own, and the tree has
//! grown by exactly those leaves.
//!
//! All of this is ghost code.

use crate::codec::note_of;
use crate::controller::{appending, next, PendingView, Reply, StepView};
use crate::error::NoteError;
use crate::ledger::Ledger;
use vstd::prelude::*;

verus! {

/// Appends under way: the state outside, and where each call stands.
pub struct Session {
    pub ledger: Ledger,
    /// The step that each call is at.
    pub calls: Seq<StepView>,
    /// For each call, the index at which the store put its leaf, once it
    /// has.
    pub slots: Seq<Option<int>>,
}

/// One event of a schedule: the request of call number `call` is answered
/// with `reply`.
pub struct Delivery {
    pub call: int,
    pub reply: Reply,
}

/// Whether the leaf of a call at `step` is in the tree: the store accepted
/// it, whatever became of the record.
pub open spec fn leaf_is_in(step: StepView) -> bool {
    match step {
        StepView::Call(pending, _) => pending is Emit,
        StepView::Done(Ok(_)) => true,
        StepView::Done(Err(e)) => e is EventEmissionFailed,
    }
}

/// The number of calls whose leaf is in the tree.
pub open spec fn leaves_in(calls: Seq<StepView>) -> nat
    decreases calls.len(),
{
    if calls.len() == 0 {
        0
    } else {
        leaves_in(calls.drop_last()) + if leaf_is_in(calls.last()) {
            1nat
        } else {
            0nat
        }
    }
}

/// The number of calls that ended well.
pub open spec fn successes(calls: Seq<StepView>) -> nat
    decreases calls.len(),
{
    if calls.len() == 0 {
        0
    } else {
        successes(calls.drop_last()) + if calls.last() matches StepView::Done(Ok(_)) {
            1nat
        } else {
            0nat
        }
    }
}

impl Session {
    /// One call for each of `messages`, none of them answered yet.
    pub open spec fn start(ledger: Ledger, merkle_tree: Seq<u8>, messages: Seq<Seq<char>>) -> Session {
        Session {
            ledger,
            calls: Seq::new(messages.len(), |i: int| appending(merkle_tree, messages[i])),
            slots: Seq::new(messages.len(), |i: int| None),
        }
    }

    /// Whether `delivery` can happen now: the call has a request out, and
    /// the reply is one that the request can get.
    pub open spec fn may(self, delivery: Delivery) -> bool {
        &&& 0 <= delivery.call < self.calls.len()
        &&& self.calls[delivery.call] matches StepView::Call(_, request)
        &&& self.ledger.admits(request, delivery.reply)
    }

    /// The session after `delivery`: the request took effect outside, the
    /// call went on to its next step, and an accepted leaf got the next
    /// index of its tree.
    pub open spec fn deliver(self, delivery: Delivery) -> Session {
        match self.calls[delivery.call] {
            StepView::Call(pending, request) => Session {
                ledger: self.ledger.apply(request, delivery.reply),
                calls: self.calls.update(delivery.call, next(pending, delivery.reply)),
                slots: if request is AppendLeaf && delivery.reply is Ok {
                    self.slots.update(
                        delivery.call,
                        Some(self.ledger.leaves(request->AppendLeaf_merkle_tree).len() as int),
                    )
                } else {
                    self.slots
                },
            },
            StepView::Done(_) => self,
        }
    }

    /// Whether the deliveries of `schedule` can happen one after another.
    pub open spec fn playable(self, schedule: Seq<Delivery>) -> bool
        decreases schedule.len(),
    {
        schedule.len() > 0 ==> self.may(schedule[0]) && self.deliver(schedule[0]).playable(
            schedule.drop_first(),
        )
    }

    /// The session after the deliveries of `schedule`.
    pub open spec fn play(self, schedule: Seq<Delivery>) -> Session
        decreases schedule.len(),
    {
        if schedule.len() == 0 {
            self
        } else {
            self.deliver(schedule[0]).play(schedule.drop_first())
        }
    }

    /// What holds of a session of appends of `messages` to the tree at
    /// `merkle_tree`, which had `before` as its leaves when they started.
    pub open spec fn consistent(
        self,
        merkle_tree: Seq<u8>,
        messages: Seq<Seq<char>>,
        before: Seq<Seq<u8>>,
    ) -> bool {
        let leaves = self.ledger.leaves(merkle_tree);
        &&& self.calls.len() == messages.len()
        &&& self.slots.len() == messages.len()
        &&& leaves.len() == before.len() + leaves_in(self.calls)
        &&& leaves.subrange(0, before.len() as int) == before
        &&& forall|i: int|
            0 <= i < messages.len() ==> (leaf_is_in(#[trigger] self.calls[i]) <==> self.slots[i] is Some)
        &&& forall|i: int|
            0 <= i < messages.len() && (#[trigger] self.slots[i]) is Some ==> {
                let k = self.slots[i]->0;
                &&& before.len() <= k < leaves.len()
                &&& leaves[k] == note_of(messages[i]).leaf_node
            }
        &&& forall|i: int, j: int|
            0 <= i < j < messages.len() && (#[trigger] self.slots[i]) is Some && (
            #[trigger] self.slots[j]) is Some ==> self.slots[i] != self.slots[j]
    }

    /// Where each call stands, given that the session is consistent: a call
    /// whose leaf is not in is still at its first step or over, and a call
    /// that waits with its leaf in waits for the emitter.
    pub open spec fn in_step(self, merkle_tree: Seq<u8>, messages: Seq<Seq<char>>) -> bool {
        forall|i: int|
            0 <= i < self.calls.len() ==> match #[trigger] self.calls[i] {
                StepView::Call(PendingView::Emit, request) => request is Emit,
                StepView::Call(_, _) => self.calls[i] == appending(merkle_tree, messages[i]),
                StepView::Done(_) => true,
            }
    }
}

/// Changing one call changes the count by that call alone.
proof fn lemma_leaves_in_update(calls: Seq<StepView>, i: int, step: StepView)
    requires
        0 <= i < calls.len(),
    ensures
        leaves_in(calls.update(i, step)) + (if leaf_is_in(calls[i]) {
            1nat
        } else {
            0nat
        }) == leaves_in(calls) + (if leaf_is_in(step) {
            1nat
        } else {
            0nat
        }),
    decreases calls.len(),
{
    let changed = calls.update(i, step);
    if i == calls.len() - 1 {
        assert(changed.drop_last() =~= calls.drop_last());
    } else {
        assert(changed.drop_last() =~= calls.drop_last().update(i, step));
        lemma_leaves_in_update(calls.drop_last(), i, step);
    }
}

/// Where no leaf is in, the count is zero.
proof fn lemma_leaves_in_none(calls: Seq<StepView>)
    requires
        forall|i: int| 0 <= i < calls.len() ==> !leaf_is_in(#[trigger] calls[i]),
    ensures
        leaves_in(calls) == 0,
    decreases calls.len(),
{
    if calls.len() > 0 {
        lemma_leaves_in_none(calls.drop_last());
    }
}

/// A session that has just started is consistent.
proof fn lemma_start(ledger: Ledger, merkle_tree: Seq<u8>, messages: Seq<Seq<char>>)
    ensures
        Session::start(ledger, merkle_tree, messages).consistent(
            merkle_tree,
            messages,
            ledger.leaves(merkle_tree),
        ),
        Session::start(ledger, merkle_tree, messages).in_step(merkle_tree, messages),
{
    let session = Session::start(ledger, merkle_tree, messages);
    lemma_leaves_in_none(session.calls);
    let leaves = ledger.leaves(merkle_tree);
    assert(leaves.subrange(0, leaves.len() as int) =~= leaves);
}

/// A delivery keeps a session consistent.
proof fn lemma_deliver(
    session: Session,
    merkle_tree: Seq<u8>,
    messages: Seq<Seq<char>>,
    before: Seq<Seq<u8>>,
    delivery: Delivery,
)
    requires
        session.consistent(merkle_tree, messages, before),
        session.in_step(merkle_tree, messages),
        session.may(delivery),
    ensures
        session.deliver(delivery).consistent(merkle_tree, messages, before),
        session.deliver(delivery).in_step(merkle_tree, messages),
{
    let c = delivery.call;
    let after = session.deliver(delivery);
    let old_leaves = session.ledger.leaves(merkle_tree);
    let new_leaves = after.ledger.leaves(merkle_tree);
    let step = session.calls[c];
    let pending = step->Call_0;
    let request = step->Call_1;
    lemma_leaves_in_update(session.calls, c, next(pending, delivery.reply));
    if pending is Emit {
        assert(request is Emit);
        assert(new_leaves == old_leaves);
        assert(after.slots == session.slots);
        assert(leaf_is_in(after.calls[c]));
    } else {
        assert(step == appending(merkle_tree, messages[c]));
        if delivery.reply is Ok {
            let leaf = note_of(messages[c]).leaf_node;
            assert(new_leaves == old_leaves.push(leaf));
            assert(after.slots == session.slots.update(c, Some(old_leaves.len() as int)));
            assert(new_leaves.subrange(0, before.len() as int) =~= old_leaves.subrange(
                0,
                before.len() as int,
            ));
            assert forall|i: int|
                0 <= i < messages.len() && (#[trigger] after.slots[i]) is Some implies {
                let k = after.slots[i]->0;
                &&& before.len() <= k < new_leaves.len()
                &&& new_leaves[k] == note_of(messages[i]).leaf_node
            } by {
                if i != c {
                    assert(session.slots[i] is Some);
                }
            }
            assert forall|i: int, j: int|
                0 <= i < j < messages.len() && (#[trigger] after.slots[i]) is Some && (
                #[trigger] after.slots[j]) is Some implies after.slots[i] != after.slots[j] by {
                if i != c {
                    assert(session.slots[i] is Some);
                }
                if j != c {
                    assert(session.slots[j] is Some);
                }
            }
        } else {
            assert(new_leaves == old_leaves);
            assert(after.slots == session.slots);
        }
    }
    assert forall|i: int| 0 <= i < messages.len() implies (leaf_is_in(#[trigger] after.calls[i])
        <==> after.slots[i] is Some) by {
        if i != c {
            assert(leaf_is_in(session.calls[i]) <==> session.slots[i] is Some);
        }
    }
    assert forall|i: int| 0 <= i < after.calls.len() implies match #[trigger] after.calls[i] {
        StepView::Call(PendingView::Emit, request) => request is Emit,
        StepView::Call(_, _) => after.calls[i] == appending(merkle_tree, messages[i]),
        StepView::Done(_) => true,
    } by {
        if i != c {
            assert(after.calls[i] == session.calls[i]);
        }
    }
}

/// Every schedule keeps a session consistent.
proof fn lemma_play(
    session: Session,
    merkle_tree: Seq<u8>,
    messages: Seq<Seq<char>>,
    before: Seq<Seq<u8>>,
    schedule: Seq<Delivery>,
)
    requires
        session.consistent(merkle_tree, messages, before),
        session.in_step(merkle_tree, messages),
        session.playable(schedule),
    ensures
        session.play(schedule).consistent(merkle_tree, messages, before),
    decreases schedule.len(),
{
    if schedule.len() > 0 {
        lemma_deliver(session, merkle_tree, messages, before, schedule[0]);
        lemma_play(
            session.deliver(schedule[0]),
            merkle_tree,
            messages,
            before,
            schedule.drop_first(),
        );
    }
}

/// Appends that run at the same time are serialised by the tree.
///
/// Take any number of appends to one tree and any order in which their
/// requests are answered. Then the tree has grown by as many leaves as there
/// are calls whose leaf the store accepted, the leaves it had are where they
/// were, each such call has an index among the new ones at which its own leaf
/// stands, and no two calls have the same index.
pub proof fn lemma_concurrent_appends(
    ledger: Ledger,
    merkle_tree: Seq<u8>,
    messages: Seq<Seq<char>>,
    schedule: Seq<Delivery>,
)
    requires
        Session::start(ledger, merkle_tree, messages).playable(schedule),
    ensures
        Session::start(ledger, merkle_tree, messages).play(schedule).consistent(
            merkle_tree,
            messages,
            ledger.leaves(merkle_tree),
        ),
{
    lemma_start(ledger, merkle_tree, messages);
    lemma_play(
        Session::start(ledger, merkle_tree, messages),
        merkle_tree,
        messages,
        ledger.leaves(merkle_tree),
        schedule,
    );
}

/// Where every call is over and none lost its record, the calls whose leaf
/// is in are those that ended well.
proof fn lemma_leaves_in_are_successes(calls: Seq<StepView>)
    requires
        forall|i: int|
            0 <= i < calls.len() ==> (#[trigger] calls[i]) is Done && !(calls[i] matches StepView::Done(
                Err(NoteError::EventEmissionFailed(_)),
            )),
    ensures
        leaves_in(calls) == successes(calls),
    decreases calls.len(),
{
    if calls.len() > 0 {
        lemma_leaves_in_are_successes(calls.drop_last());
        let last = calls.last();
        assert(last == calls[calls.len() - 1]);
        assert(leaf_is_in(last) <==> last matches StepView::Done(Ok(_)));
    }
}

/// With an emitter that never fails, the tree grows by one leaf for each
/// call that ends well.
///
/// Take any number of appends to one tree and any order in which their
/// requests are answered, run every call to its end, and let no call end
/// with `EventEmissionFailed`. Then the number of leaves has grown by the
/// number of calls that ended well.
pub proof fn lemma_leaf_count_is_successes(
    ledger: Ledger,
    merkle_tree: Seq<u8>,
    messages: Seq<Seq<char>>,
    schedule: Seq<Delivery>,
)
    requires
        Session::start(ledger, merkle_tree, messages).playable(schedule),
        forall|i: int|
            0 <= i < messages.len() ==> {
                let step = #[trigger] Session::start(ledger, merkle_tree, messages).play(
                    schedule,
                ).calls[i];
                &&& step is Done
                &&& !(step matches StepView::Done(Err(NoteError::EventEmissionFailed(_))))
            },
    ensures
        ({
            let end = Session::start(ledger, merkle_tree, messages).play(schedule);
            end.ledger.leaves(merkle_tree).len() == ledger.leaves(merkle_tree).len() + successes(
                end.calls,
            )
        }),
{
    lemma_concurrent_appends(ledger, merkle_tree, messages, schedule);
    lemma_leaves_in_are_successes(Session::start(ledger, merkle_tree, messages).play(schedule).calls);
}

} // verus!
