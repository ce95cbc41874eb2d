//! The ways an operation on a note log fails.

use vstd::prelude::*;

verus! {

/// Why an operation did not complete.
///
/// The three variants that carry a number report a failure of something
/// outside this crate. The number is the code that the outside party gave,
/// passed on unchanged.
#[derive(Debug, Clone, Copy, PartialEq, Eq, Structural)]
pub enum NoteError {
    /// No authority can be derived for the tree: no bump seed gives a valid
    /// address. Nothing outside was called.
    AuthorityDerivationFailed,
    /// The tree store refused to initialise the tree. The store is unchanged.
    TreeInitializationFailed(u64),
    /// The tree store refused the leaf. The tree is unchanged and no event
    /// went out.
    LeafAppendFailed(u64),
    /// The leaf is in the tree, but the record that carries its text could
    /// not be emitted. The append is not undone.
    EventEmissionFailed(u64),
    /// The bytes handed to the decoder are not the encoding of a note.
    MalformedRecord,
    /// The text is longer than a record can hold. Nothing outside was
    /// called.
    MessageTooLong,
}

} // verus!
