//! An append-only log of notes committed to a concurrent Merkle tree.
//!
//! A note is a piece of text. Its Keccak-256 digest becomes a leaf of the
//! tree, and the text itself travels in a record handed to an event emitter,
//! from which readers rebuild the log. The tree and the emitter live outside
//! this crate: the functions here decide which request goes out next and what
//! a reply means, and leave the sending to the caller.

pub mod authority;
pub mod codec;
pub mod controller;
pub mod error;
pub mod leaf;
pub mod ledger;
pub mod schedule;

pub use authority::Authority;
pub use codec::NoteSchema;
pub use controller::{
    append_note, create_note_tree, resume, AppendNote, CreateNoteTree, Pending, Reply, Request, Step,
};
pub use error::NoteError;
pub use leaf::commit;
