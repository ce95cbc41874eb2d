//! The tree lifecycle controller: creating a tree and appending notes.
//!
//! An operation talks to two parties outside this crate, the tree store and
//! the event emitter. It is written here as a plan: each function returns a
//! `Step`, which is either the next request to send, with what to remember
//! while the reply is awaited, or the end of the operation. The caller sends
//! the request and hands the reply to `resume`.
//!
//! An append goes to the tree first and to the emitter second. The tree
//! decides what is in the log and in which order; the event trail only
//! carries the text, and a failure to emit leaves the leaf where it is.
//! The order is a choice, and it is made in one place, `next`. With the
//! emitter first, a record could go out for a leaf that the tree then
//! refuses, and the trail would tell of notes that are not in the log.

use crate::authority::{derivation, derived_view, Authority, AuthorityView};
use crate::codec::{note_of, NoteSchema, NoteView};
use crate::error::NoteError;
use crate::leaf::commit;
use vstd::prelude::*;
use vstd::string::*;
use vstd::utf8::*;

verus! {

/// What creating a note tree is given: the address of the tree.
#[derive(Debug, Clone, Copy, PartialEq, Eq)]
pub struct CreateNoteTree {
    pub merkle_tree: [u8; 32],
}

/// What appending a note is given: the address of the tree.
#[derive(Debug, Clone, Copy, PartialEq, Eq)]
pub struct AppendNote {
    pub merkle_tree: [u8; 32],
}

/// A request to a party outside this crate.
#[derive(Debug, PartialEq, Eq)]
pub enum Request {
    /// To the tree store: initialise an empty tree at `merkle_tree`, of the
    /// given depth and buffer size, writable by `authority`.
    InitEmptyTree { merkle_tree: [u8; 32], authority: Authority, max_depth: u32, max_buffer_size: u32 },
    /// To the tree store: append `leaf` to the tree at `merkle_tree`, in the
    /// name of `authority`.
    AppendLeaf { merkle_tree: [u8; 32], authority: Authority, leaf: [u8; 32] },
    /// To the event emitter: emit `record`.
    Emit { record: Vec<u8> },
}

/// A request as plain values.
pub enum RequestView {
    InitEmptyTree { merkle_tree: Seq<u8>, authority: AuthorityView, max_depth: u32, max_buffer_size: u32 },
    AppendLeaf { merkle_tree: Seq<u8>, authority: AuthorityView, leaf: Seq<u8> },
    Emit { record: Seq<u8> },
}

impl View for Request {
    type V = RequestView;

    open spec fn view(&self) -> RequestView {
        match *self {
            Request::InitEmptyTree { merkle_tree, authority, max_depth, max_buffer_size } => {
                RequestView::InitEmptyTree {
                    merkle_tree: merkle_tree@,
                    authority: authority@,
                    max_depth,
                    max_buffer_size,
                }
            },
            Request::AppendLeaf { merkle_tree, authority, leaf } => RequestView::AppendLeaf {
                merkle_tree: merkle_tree@,
                authority: authority@,
                leaf: leaf@,
            },
            Request::Emit { record } => RequestView::Emit { record: record@ },
        }
    }
}

/// What an operation remembers while a request is out.
#[derive(Debug, PartialEq, Eq)]
pub enum Pending {
    /// The tree store was asked to initialise the tree.
    Initialize,
    /// The tree store was asked to append the leaf. `record` is what goes to
    /// the emitter once the leaf is in.
    Append { record: Vec<u8> },
    /// The emitter was asked to emit the record.
    Emit,
}

/// A pending state as plain values.
pub enum PendingView {
    Initialize,
    Append { record: Seq<u8> },
    Emit,
}

impl View for Pending {
    type V = PendingView;

    open spec fn view(&self) -> PendingView {
        match *self {
            Pending::Initialize => PendingView::Initialize,
            Pending::Append { record } => PendingView::Append { record: record@ },
            Pending::Emit => PendingView::Emit,
        }
    }
}

/// A reply from outside: `Ok`, or the code of a refusal.
pub type Reply = Result<(), u64>;

/// One step of an operation.
#[derive(Debug, PartialEq, Eq)]
pub enum Step {
    /// Send the request, then call `resume` with the pending state and the
    /// reply.
    Call(Pending, Request),
    /// The operation is over, with this result.
    Done(Result<(), NoteError>),
}

/// A step as plain values.
pub enum StepView {
    Call(PendingView, RequestView),
    Done(Result<(), NoteError>),
}

impl View for Step {
    type V = StepView;

    open spec fn view(&self) -> StepView {
        match *self {
            Step::Call(pending, request) => StepView::Call(pending@, request@),
            Step::Done(result) => StepView::Done(result),
        }
    }
}

/// The first step of creating a tree: with an authority, the request to
/// initialise the tree; without one, the end.
pub open spec fn create_plan(
    merkle_tree: Seq<u8>,
    derived: Result<AuthorityView, NoteError>,
    max_depth: u32,
    max_buffer_size: u32,
) -> StepView {
    match derived {
        Ok(authority) => StepView::Call(
            PendingView::Initialize,
            RequestView::InitEmptyTree { merkle_tree, authority, max_depth, max_buffer_size },
        ),
        Err(e) => StepView::Done(Err(e)),
    }
}

/// The first step of appending a note: with an authority and a text that
/// fits, the request to append the note's leaf, with the note's record kept
/// for the emitter; else the end.
pub open spec fn append_plan(
    merkle_tree: Seq<u8>,
    derived: Result<AuthorityView, NoteError>,
    note: NoteView,
) -> StepView {
    match derived {
        Ok(authority) => if note.fits() {
            StepView::Call(
                PendingView::Append { record: note.record() },
                RequestView::AppendLeaf { merkle_tree, authority, leaf: note.leaf_node },
            )
        } else {
            StepView::Done(Err(NoteError::MessageTooLong))
        },
        Err(e) => StepView::Done(Err(e)),
    }
}

/// The step that follows a reply.
///
/// A refusal ends the operation with the error of the party that refused,
/// carrying its code. An accepted append is followed by the emission of the
/// record; an accepted initialisation or emission ends the operation well.
pub open spec fn next(pending: PendingView, reply: Reply) -> StepView {
    match pending {
        PendingView::Initialize => match reply {
            Ok(_) => StepView::Done(Ok(())),
            Err(code) => StepView::Done(Err(NoteError::TreeInitializationFailed(code))),
        },
        PendingView::Append { record } => match reply {
            Ok(_) => StepView::Call(PendingView::Emit, RequestView::Emit { record }),
            Err(code) => StepView::Done(Err(NoteError::LeafAppendFailed(code))),
        },
        PendingView::Emit => match reply {
            Ok(_) => StepView::Done(Ok(())),
            Err(code) => StepView::Done(Err(NoteError::EventEmissionFailed(code))),
        },
    }
}

/// The first step of creating the tree at `merkle_tree`.
pub open spec fn creating(merkle_tree: Seq<u8>, max_depth: u32, max_buffer_size: u32) -> StepView {
    create_plan(merkle_tree, derivation(merkle_tree), max_depth, max_buffer_size)
}

/// The first step of appending `message` to the tree at `merkle_tree`.
pub open spec fn appending(merkle_tree: Seq<u8>, message: Seq<char>) -> StepView {
    append_plan(merkle_tree, derivation(merkle_tree), note_of(message))
}

/// Plans the creation of a tree, given the outcome of deriving its
/// authority.
pub fn plan_create(
    ctx: &CreateNoteTree,
    derived: Result<Authority, NoteError>,
    max_depth: u32,
    max_buffer_size: u32,
) -> (step: Step)
    ensures
        step@ == create_plan(ctx.merkle_tree@, derived_view(derived), max_depth, max_buffer_size),
{
    match derived {
        Ok(authority) => Step::Call(
            Pending::Initialize,
            Request::InitEmptyTree {
                merkle_tree: ctx.merkle_tree,
                authority,
                max_depth,
                max_buffer_size,
            },
        ),
        Err(e) => Step::Done(Err(e)),
    }
}

/// Plans the appending of `note`, given the outcome of deriving the tree's
/// authority.
pub fn plan_append(ctx: &AppendNote, derived: Result<Authority, NoteError>, note: &NoteSchema) -> (step:
    Step)
    ensures
        step@ == append_plan(ctx.merkle_tree@, derived_view(derived), note@),
{
    match derived {
        Ok(authority) => match note.encode() {
            Ok(record) => Step::Call(
                Pending::Append { record },
                Request::AppendLeaf {
                    merkle_tree: ctx.merkle_tree,
                    authority,
                    leaf: *note.leaf_node(),
                },
            ),
            Err(e) => Step::Done(Err(e)),
        },
        Err(e) => Step::Done(Err(e)),
    }
}

/// Starts the creation of a note tree at `ctx.merkle_tree`.
///
/// Derives the tree's authority. With it, the step is the request to the
/// tree store; without it, the operation ends with
/// `AuthorityDerivationFailed` and nothing is sent.
pub fn create_note_tree(ctx: &CreateNoteTree, max_depth: u32, max_buffer_size: u32) -> (step: Step)
    ensures
        step@ == creating(ctx.merkle_tree@, max_depth, max_buffer_size),
{
    let derived = crate::authority::derive(&ctx.merkle_tree);
    plan_create(ctx, derived, max_depth, max_buffer_size)
}

/// Starts the appending of `message` to the tree at `ctx.merkle_tree`.
///
/// Commits to the text and derives the tree's authority. The step is the
/// request to append the leaf; the record of the note waits in the pending
/// state until the tree store has accepted the leaf. Without an authority,
/// or with a text that does not fit a record, the operation ends at once and
/// nothing is sent.
pub fn append_note(ctx: &AppendNote, message: String) -> (step: Step)
    ensures
        step@ == appending(ctx.merkle_tree@, message@),
{
    let leaf = commit(message.as_str().as_bytes());
    let note = NoteSchema::new(leaf, message);
    let derived = crate::authority::derive(&ctx.merkle_tree);
    plan_append(ctx, derived, &note)
}

/// Takes the reply to the request that is out and gives the next step.
pub fn resume(pending: Pending, reply: Reply) -> (step: Step)
    ensures
        step@ == next(pending@, reply),
{
    match pending {
        Pending::Initialize => match reply {
            Ok(_) => Step::Done(Ok(())),
            Err(code) => Step::Done(Err(NoteError::TreeInitializationFailed(code))),
        },
        Pending::Append { record } => match reply {
            Ok(_) => Step::Call(Pending::Emit, Request::Emit { record }),
            Err(code) => Step::Done(Err(NoteError::LeafAppendFailed(code))),
        },
        Pending::Emit => match reply {
            Ok(_) => Step::Done(Ok(())),
            Err(code) => Step::Done(Err(NoteError::EventEmissionFailed(code))),
        },
    }
}

} // verus!
