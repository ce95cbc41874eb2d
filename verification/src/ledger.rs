//! A model of the two parties outside this crate, and what the controller's
//! plans come to when they are run against it.
//!
//! The tree store keeps, for each tree, the authority that may write to it
//! and the leaves in the order in which they were appended. The event
//! emitter keeps the trail of records. Both are atomic: a request either
//! takes effect whole and is answered `Ok`, or changes nothing and is
//! answered with a code. The model says no more of the store than that: how
//! it lays a tree out, and every reason it may have to refuse, are its own.
//!
//! All of this is ghost code. Nothing here is called when the library runs.

use crate::codec::{lemma_round_trip, note_of, parse};
use crate::controller::{appending, creating, next, PendingView, Reply, RequestView, StepView};
use crate::error::NoteError;
use crate::leaf::leaf_value;
use vstd::prelude::*;
use vstd::utf8::*;

verus! {

/// A tree in the store.
pub struct Tree {
    /// The address that may append to the tree.
    pub authority: Seq<u8>,
    pub max_depth: u32,
    pub max_buffer_size: u32,
    /// The leaves, oldest first: the leaf at index `i` is `leaves[i]`.
    pub leaves: Seq<Seq<u8>>,
}

/// The state of the tree store and of the event emitter.
pub struct Ledger {
    /// The trees that were initialised, by address.
    pub trees: Map<Seq<u8>, Tree>,
    /// The records that were emitted, oldest first.
    pub trail: Seq<Seq<u8>>,
}

impl Ledger {
    /// Whether the tree at `merkle_tree` was initialised.
    pub open spec fn has_tree(self, merkle_tree: Seq<u8>) -> bool {
        self.trees.dom().contains(merkle_tree)
    }

    /// The leaves of the tree at `merkle_tree`.
    pub open spec fn leaves(self, merkle_tree: Seq<u8>) -> Seq<Seq<u8>> {
        self.trees[merkle_tree].leaves
    }

    /// This state with `leaf` appended to the tree at `merkle_tree`.
    pub open spec fn with_leaf(self, merkle_tree: Seq<u8>, leaf: Seq<u8>) -> Ledger {
        Ledger {
            trees: self.trees.insert(
                merkle_tree,
                Tree {
                    leaves: self.trees[merkle_tree].leaves.push(leaf),
                    ..self.trees[merkle_tree]
                },
            ),
            ..self
        }
    }

    /// This state with `record` emitted.
    pub open spec fn with_record(self, record: Seq<u8>) -> Ledger {
        Ledger { trail: self.trail.push(record), ..self }
    }

    /// Whether `reply` is one that `request` can get in this state.
    ///
    /// A refusal is always possible. A tree is initialised only where there
    /// is none yet, and a leaf is accepted only into a tree that was
    /// initialised, from the authority it was initialised with.
    pub open spec fn admits(self, request: RequestView, reply: Reply) -> bool {
        reply is Ok ==> match request {
            RequestView::InitEmptyTree { merkle_tree, .. } => !self.has_tree(merkle_tree),
            RequestView::AppendLeaf { merkle_tree, authority, .. } => self.has_tree(merkle_tree)
                && self.trees[merkle_tree].authority == authority.address,
            RequestView::Emit { .. } => true,
        }
    }

    /// The state after `request` was answered with `reply`: unchanged after
    /// a refusal, and else with the one effect of the request.
    pub open spec fn apply(self, request: RequestView, reply: Reply) -> Ledger {
        if reply is Err {
            self
        } else {
            match request {
                RequestView::InitEmptyTree {
                    merkle_tree,
                    authority,
                    max_depth,
                    max_buffer_size,
                } => Ledger {
                    trees: self.trees.insert(
                        merkle_tree,
                        Tree {
                            authority: authority.address,
                            max_depth,
                            max_buffer_size,
                            leaves: Seq::empty(),
                        },
                    ),
                    ..self
                },
                RequestView::AppendLeaf { merkle_tree, leaf, .. } => self.with_leaf(merkle_tree, leaf),
                RequestView::Emit { record } => self.with_record(record),
            }
        }
    }
}

/// Where an operation stands after some replies.
pub struct Run {
    /// The state outside.
    pub ledger: Ledger,
    /// The step the operation is at.
    pub step: StepView,
    /// Whether every reply answered a request that was out, and was one
    /// that the request could get.
    pub admitted: bool,
}

impl Run {
    /// The operation is over and every reply was in order.
    pub open spec fn finished(self) -> bool {
        self.admitted && self.step is Done
    }
}

/// Runs an operation from `step` against `ledger`: each request is answered
/// with the next of `replies`, applied outside, and followed by the step that
/// the controller takes on that reply.
pub open spec fn run(ledger: Ledger, step: StepView, replies: Seq<Reply>) -> Run
    decreases replies.len(),
{
    if replies.len() == 0 {
        Run { ledger, step, admitted: true }
    } else {
        match step {
            StepView::Done(_) => Run { ledger, step, admitted: false },
            StepView::Call(pending, request) => {
                let rest = run(
                    ledger.apply(request, replies[0]),
                    next(pending, replies[0]),
                    replies.drop_first(),
                );
                Run { admitted: ledger.admits(request, replies[0]) && rest.admitted, ..rest }
            },
        }
    }
}

/// A run against no reply stands where it started.
proof fn lemma_run_none(ledger: Ledger, step: StepView)
    ensures
        run(ledger, step, Seq::empty()) == (Run { ledger, step, admitted: true }),
{
}

/// A run of a request that is out goes through its first reply and on with
/// the rest.
proof fn lemma_run_call(ledger: Ledger, pending: PendingView, request: RequestView, replies: Seq<Reply>)
    requires
        replies.len() > 0,
    ensures
        run(ledger, StepView::Call(pending, request), replies) == ({
            let rest = run(
                ledger.apply(request, replies[0]),
                next(pending, replies[0]),
                replies.drop_first(),
            );
            Run { admitted: ledger.admits(request, replies[0]) && rest.admitted, ..rest }
        }),
{
}

/// A run that is over takes no reply.
proof fn lemma_run_done(ledger: Ledger, result: Result<(), NoteError>, replies: Seq<Reply>)
    ensures
        run(ledger, StepView::Done(result), replies).admitted ==> replies.len() == 0 && run(
            ledger,
            StepView::Done(result),
            replies,
        ) == (Run { ledger, step: StepView::Done(result), admitted: true }),
{
}

/// The log only grows.
///
/// Whatever the operation and whatever the replies, a tree that is there
/// stays, with the authority, the depth and the buffer size it was
/// initialised with; the leaves it has stay where they are; and so do the
/// records of the trail. Nothing is updated and nothing is deleted.
pub proof fn lemma_append_only(ledger: Ledger, step: StepView, replies: Seq<Reply>, merkle_tree: Seq<u8>)
    requires
        run(ledger, step, replies).admitted,
    ensures
        ({
            let end = run(ledger, step, replies).ledger;
            &&& ledger.trail.len() <= end.trail.len()
            &&& end.trail.subrange(0, ledger.trail.len() as int) == ledger.trail
            &&& ledger.has_tree(merkle_tree) ==> {
                &&& end.has_tree(merkle_tree)
                &&& end.trees[merkle_tree].authority == ledger.trees[merkle_tree].authority
                &&& end.trees[merkle_tree].max_depth == ledger.trees[merkle_tree].max_depth
                &&& end.trees[merkle_tree].max_buffer_size
                    == ledger.trees[merkle_tree].max_buffer_size
                &&& ledger.leaves(merkle_tree).len() <= end.leaves(merkle_tree).len()
                &&& end.leaves(merkle_tree).subrange(0, ledger.leaves(merkle_tree).len() as int)
                    == ledger.leaves(merkle_tree)
            }
        }),
    decreases replies.len(),
{
    let leaves = ledger.leaves(merkle_tree);
    assert(ledger.trail.subrange(0, ledger.trail.len() as int) =~= ledger.trail);
    assert(leaves.subrange(0, leaves.len() as int) =~= leaves);
    if replies.len() > 0 {
        match step {
            StepView::Done(_) => {},
            StepView::Call(pending, request) => {
                let middle = ledger.apply(request, replies[0]);
                lemma_append_only(middle, next(pending, replies[0]), replies.drop_first(), merkle_tree);
                let end = run(ledger, step, replies).ledger;
                assert(middle.trail.subrange(0, ledger.trail.len() as int) =~= ledger.trail);
                assert(end.trail.subrange(0, ledger.trail.len() as int) =~= end.trail.subrange(
                    0,
                    middle.trail.len() as int,
                ).subrange(0, ledger.trail.len() as int));
                if ledger.has_tree(merkle_tree) {
                    assert(middle.leaves(merkle_tree).subrange(0, leaves.len() as int) =~= leaves);
                    assert(end.leaves(merkle_tree).subrange(0, leaves.len() as int)
                        =~= end.leaves(merkle_tree).subrange(
                        0,
                        middle.leaves(merkle_tree).len() as int,
                    ).subrange(0, leaves.len() as int));
                }
            },
        }
    }
}

/// What a finished creation comes to: it took one reply if there was an
/// authority and none if not, and the tree is there exactly when it ended
/// well.
pub proof fn lemma_create_outcome(
    ledger: Ledger,
    merkle_tree: Seq<u8>,
    max_depth: u32,
    max_buffer_size: u32,
    replies: Seq<Reply>,
)
    requires
        run(ledger, creating(merkle_tree, max_depth, max_buffer_size), replies).finished(),
    ensures
        ({
            let end = run(ledger, creating(merkle_tree, max_depth, max_buffer_size), replies);
            match end.step {
                StepView::Done(Ok(_)) => {
                    &&& replies.len() == 1 && replies[0] is Ok
                    &&& !ledger.has_tree(merkle_tree)
                    &&& end.ledger.has_tree(merkle_tree)
                    &&& end.ledger.leaves(merkle_tree) == Seq::<Seq<u8>>::empty()
                    &&& end.ledger.trees[merkle_tree].max_depth == max_depth
                    &&& end.ledger.trees[merkle_tree].max_buffer_size == max_buffer_size
                    &&& end.ledger.trees == ledger.trees.insert(
                        merkle_tree,
                        end.ledger.trees[merkle_tree],
                    )
                    &&& end.ledger.trail == ledger.trail
                },
                StepView::Done(Err(NoteError::TreeInitializationFailed(code))) => {
                    &&& replies == seq![Err::<(), u64>(code)]
                    &&& end.ledger == ledger
                },
                StepView::Done(Err(e)) => {
                    &&& e == NoteError::AuthorityDerivationFailed
                    &&& replies.len() == 0
                    &&& end.ledger == ledger
                },
                StepView::Call(_, _) => false,
            }
        }),
{
    let start = creating(merkle_tree, max_depth, max_buffer_size);
    match start {
        StepView::Done(result) => {
            lemma_run_done(ledger, result, replies);
        },
        StepView::Call(pending, request) => {
            if replies.len() == 0 {
                lemma_run_none(ledger, start);
            } else {
                lemma_run_call(ledger, pending, request, replies);
                let after = next(pending, replies[0]);
                lemma_run_done(ledger.apply(request, replies[0]), after->Done_0, replies.drop_first());
                assert(replies =~= seq![replies[0]]);
            }
        },
    }
}

/// What a finished append comes to.
///
/// It ends well exactly when the leaf went in and the record went out. It
/// ends with `EventEmissionFailed` exactly when the leaf went in and the
/// record did not: the tree keeps the leaf. With any other error nothing
/// outside has changed. In every case the tree got at most one leaf, at its
/// end, and that leaf commits to the text.
pub proof fn lemma_append_outcome(
    ledger: Ledger,
    merkle_tree: Seq<u8>,
    message: Seq<char>,
    replies: Seq<Reply>,
)
    requires
        run(ledger, appending(merkle_tree, message), replies).finished(),
    ensures
        ({
            let end = run(ledger, appending(merkle_tree, message), replies);
            let note = note_of(message);
            match end.step {
                StepView::Done(Ok(_)) => {
                    &&& replies.len() == 2 && replies[0] is Ok && replies[1] is Ok
                    &&& ledger.has_tree(merkle_tree)
                    &&& end.ledger == ledger.with_leaf(merkle_tree, note.leaf_node).with_record(
                        note.record(),
                    )
                    &&& parse(note.record()) == Some(note)
                },
                StepView::Done(Err(NoteError::EventEmissionFailed(code))) => {
                    &&& replies.len() == 2 && replies[0] is Ok && replies[1] == Err::<(), u64>(code)
                    &&& ledger.has_tree(merkle_tree)
                    &&& end.ledger == ledger.with_leaf(merkle_tree, note.leaf_node)
                },
                StepView::Done(Err(NoteError::LeafAppendFailed(code))) => {
                    &&& replies == seq![Err::<(), u64>(code)]
                    &&& end.ledger == ledger
                },
                StepView::Done(Err(e)) => {
                    &&& e == NoteError::AuthorityDerivationFailed || e == NoteError::MessageTooLong
                    &&& replies.len() == 0
                    &&& end.ledger == ledger
                },
                StepView::Call(_, _) => false,
            }
        }),
{
    let start = appending(merkle_tree, message);
    let note = note_of(message);
    match start {
        StepView::Done(result) => {
            lemma_run_done(ledger, result, replies);
        },
        StepView::Call(pending, request) => {
            if replies.len() == 0 {
                lemma_run_none(ledger, start);
            } else {
                if note.fits() {
                    lemma_round_trip(message);
                }
                lemma_run_call(ledger, pending, request, replies);
                let first = replies[0];
                let rest = replies.drop_first();
                let middle = ledger.apply(request, first);
                match next(pending, first) {
                    StepView::Done(result) => {
                        lemma_run_done(middle, result, rest);
                        assert(replies =~= seq![first]);
                    },
                    StepView::Call(emitting, emission) => {
                        if rest.len() == 0 {
                            lemma_run_none(middle, next(pending, first));
                        } else {
                            lemma_run_call(middle, emitting, emission, rest);
                            let last = next(emitting, rest[0]);
                            lemma_run_done(middle.apply(emission, rest[0]), last->Done_0, rest.drop_first());
                            assert(replies =~= seq![first, rest[0]]);
                        }
                    },
                }
            }
        },
    }
}

/// Creating a tree a second time fails, and changes nothing.
///
/// Once a creation has ended well, every later creation at the same address,
/// of whatever size, ends with `TreeInitializationFailed`, and leaves the
/// store and the trail as the first one left them.
pub proof fn lemma_second_create_is_refused(
    ledger: Ledger,
    merkle_tree: Seq<u8>,
    first_size: (u32, u32),
    first_replies: Seq<Reply>,
    second_size: (u32, u32),
    second_replies: Seq<Reply>,
)
    requires
        run(ledger, creating(merkle_tree, first_size.0, first_size.1), first_replies).finished(),
        run(ledger, creating(merkle_tree, first_size.0, first_size.1), first_replies).step
            == StepView::Done(Ok(())),
        run(
            run(ledger, creating(merkle_tree, first_size.0, first_size.1), first_replies).ledger,
            creating(merkle_tree, second_size.0, second_size.1),
            second_replies,
        ).finished(),
    ensures
        ({
            let first = run(ledger, creating(merkle_tree, first_size.0, first_size.1), first_replies);
            let second = run(
                first.ledger,
                creating(merkle_tree, second_size.0, second_size.1),
                second_replies,
            );
            &&& second.step matches StepView::Done(Err(NoteError::TreeInitializationFailed(_)))
            &&& second.ledger == first.ledger
        }),
{
    let first = run(ledger, creating(merkle_tree, first_size.0, first_size.1), first_replies);
    lemma_create_outcome(ledger, merkle_tree, first_size.0, first_size.1, first_replies);
    lemma_create_outcome(first.ledger, merkle_tree, second_size.0, second_size.1, second_replies);
}

/// A failure to emit does not undo the append.
///
/// Where the tree store accepts the leaf and the emitter then refuses the
/// record with `code`, the operation ends with `EventEmissionFailed(code)`,
/// the tree has one leaf more, the leaf of the text, and the trail is as it
/// was.
pub proof fn lemma_emission_failure_keeps_leaf(
    ledger: Ledger,
    merkle_tree: Seq<u8>,
    message: Seq<char>,
    code: u64,
)
    requires
        run(
            ledger,
            appending(merkle_tree, message),
            seq![Ok::<(), u64>(()), Err::<(), u64>(code)],
        ).admitted,
    ensures
        ({
            let end = run(
                ledger,
                appending(merkle_tree, message),
                seq![Ok::<(), u64>(()), Err::<(), u64>(code)],
            );
            &&& end.step == StepView::Done(Err(NoteError::EventEmissionFailed(code)))
            &&& end.ledger.leaves(merkle_tree) == ledger.leaves(merkle_tree).push(
                leaf_value(encode_utf8(message)),
            )
            &&& end.ledger.leaves(merkle_tree).len() == ledger.leaves(merkle_tree).len() + 1
            &&& end.ledger.trail == ledger.trail
        }),
{
    let replies = seq![Ok::<(), u64>(()), Err::<(), u64>(code)];
    let start = appending(merkle_tree, message);
    match start {
        StepView::Done(result) => {
            lemma_run_done(ledger, result, replies);
        },
        StepView::Call(pending, request) => {
            lemma_run_call(ledger, pending, request, replies);
            let rest = replies.drop_first();
            assert(rest =~= seq![Err::<(), u64>(code)]);
            let middle = ledger.apply(request, replies[0]);
            let step = next(pending, replies[0]);
            lemma_run_call(middle, step->Call_0, step->Call_1, rest);
            assert(rest.drop_first() =~= Seq::<Reply>::empty());
            lemma_run_none(middle.apply(step->Call_1, rest[0]), next(step->Call_0, rest[0]));
        },
    }
}

/// Appending to a tree that was never initialised fails, and changes
/// nothing.
///
/// The operation ends with an error, with no leaf anywhere and no record
/// emitted. Where an authority was derived and the text fits, the error is
/// the store's refusal, `LeafAppendFailed`.
pub proof fn lemma_append_needs_tree(
    ledger: Ledger,
    merkle_tree: Seq<u8>,
    message: Seq<char>,
    replies: Seq<Reply>,
)
    requires
        !ledger.has_tree(merkle_tree),
        run(ledger, appending(merkle_tree, message), replies).finished(),
    ensures
        ({
            let end = run(ledger, appending(merkle_tree, message), replies);
            &&& end.step matches StepView::Done(Err(e))
            &&& end.ledger == ledger
            &&& appending(merkle_tree, message) is Call ==> end.step matches StepView::Done(
                Err(NoteError::LeafAppendFailed(_)),
            )
        }),
{
    lemma_append_outcome(ledger, merkle_tree, message, replies);
    let start = appending(merkle_tree, message);
    if start is Call && replies.len() == 0 {
        lemma_run_none(ledger, start);
    }
}

/// The first note of a new tree is its leaf 0, and its record tells the
/// text.
///
/// Where a creation ends well, an append to that tree presents the authority
/// that the store expects. Where the store and the emitter then both accept,
/// the tree holds exactly the leaf of the text, and the trail has grown by
/// one record, which decodes to that leaf and that text.
pub proof fn lemma_first_note(
    ledger: Ledger,
    merkle_tree: Seq<u8>,
    max_depth: u32,
    max_buffer_size: u32,
    message: Seq<char>,
)
    requires
        run(
            ledger,
            creating(merkle_tree, max_depth, max_buffer_size),
            seq![Ok::<(), u64>(())],
        ).admitted,
        note_of(message).fits(),
    ensures
        ({
            let created = run(
                ledger,
                creating(merkle_tree, max_depth, max_buffer_size),
                seq![Ok::<(), u64>(())],
            );
            let end = run(
                created.ledger,
                appending(merkle_tree, message),
                seq![Ok::<(), u64>(()), Ok::<(), u64>(())],
            );
            let note = note_of(message);
            &&& created.step == StepView::Done(Ok(()))
            &&& end.admitted
            &&& end.step == StepView::Done(Ok(()))
            &&& end.ledger.leaves(merkle_tree) == seq![leaf_value(encode_utf8(message))]
            &&& end.ledger.trail == ledger.trail.push(note.record())
            &&& parse(note.record()) == Some(note)
        }),
{
    let one = seq![Ok::<(), u64>(())];
    let two = seq![Ok::<(), u64>(()), Ok::<(), u64>(())];
    let note = note_of(message);
    lemma_round_trip(message);
    let start = creating(merkle_tree, max_depth, max_buffer_size);
    match start {
        StepView::Done(result) => {
            lemma_run_done(ledger, result, one);
        },
        StepView::Call(pending, request) => {
            lemma_run_call(ledger, pending, request, one);
            assert(one.drop_first() =~= Seq::<Reply>::empty());
            let created = ledger.apply(request, one[0]);
            lemma_run_none(created, next(pending, one[0]));
            let step = appending(merkle_tree, message);
            lemma_run_call(created, step->Call_0, step->Call_1, two);
            assert(two.drop_first() =~= one);
            let grown = created.apply(step->Call_1, two[0]);
            let emitting = next(step->Call_0, two[0]);
            lemma_run_call(grown, emitting->Call_0, emitting->Call_1, one);
            lemma_run_none(grown.apply(emitting->Call_1, one[0]), next(emitting->Call_0, one[0]));
            assert(grown.leaves(merkle_tree) =~= seq![leaf_value(encode_utf8(message))]);
        },
    }
}

} // verus!
