//! The note codec: the one durable form of a note.
//!
//! A record is the 32-byte leaf, then the length of the text in bytes as a
//! little-endian `u32`, then the text as UTF-8. Nothing follows the text.

use crate::error::NoteError;
use crate::leaf::{leaf_value, LEAF_LEN};
use vstd::prelude::*;
use vstd::slice::*;
use vstd::string::*;
use vstd::utf8::*;

verus! {

/// Number of bytes in front of the text: the leaf and the length field.
pub const HEADER_LEN: usize = 36;

/// A note: the leaf committed to the tree, and the text it stands for.
#[derive(Debug, PartialEq, Eq)]
pub struct NoteSchema {
    leaf_node: [u8; 32],
    message: String,
}

/// What a note holds, as plain sequences.
pub struct NoteView {
    pub leaf_node: Seq<u8>,
    pub message: Seq<char>,
}

impl View for NoteSchema {
    type V = NoteView;

    closed spec fn view(&self) -> NoteView {
        NoteView { leaf_node: self.leaf_node@, message: self.message@ }
    }
}

/// The four bytes of `n`, least significant first.
pub open spec fn le_bytes(n: u32) -> Seq<u8> {
    seq![
        (n % 256) as u8,
        ((n / 256) % 256) as u8,
        ((n / 65536) % 256) as u8,
        (n / 16777216) as u8,
    ]
}

/// The number whose little-endian bytes are the first four of `bytes`.
pub open spec fn le_value(bytes: Seq<u8>) -> int {
    bytes[0] + 256 * bytes[1] + 65536 * bytes[2] + 16777216 * bytes[3]
}

impl NoteView {
    /// The leaf has the width of a digest.
    pub open spec fn wf(self) -> bool {
        self.leaf_node.len() == LEAF_LEN
    }

    /// The text in bytes.
    pub open spec fn message_bytes(self) -> Seq<u8> {
        encode_utf8(self.message)
    }

    /// The length of the text fits the length field, and the whole record
    /// fits in memory.
    pub open spec fn fits(self) -> bool {
        &&& self.message_bytes().len() <= u32::MAX
        &&& HEADER_LEN + self.message_bytes().len() <= usize::MAX
    }

    /// The record of this note: leaf, length, text.
    pub open spec fn record(self) -> Seq<u8> {
        self.leaf_node + le_bytes(self.message_bytes().len() as u32) + self.message_bytes()
    }
}

/// The note that `record` encodes, if it encodes one: the length field must
/// account for every byte behind it, and those bytes must be UTF-8.
pub open spec fn parse(record: Seq<u8>) -> Option<NoteView> {
    let length = record.subrange(LEAF_LEN as int, HEADER_LEN as int);
    let text = record.subrange(HEADER_LEN as int, record.len() as int);
    if record.len() >= HEADER_LEN && text.len() == le_value(length) && valid_utf8(text) {
        Some(NoteView { leaf_node: record.subrange(0, LEAF_LEN as int), message: decode_utf8(text) })
    } else {
        None
    }
}

/// The note that commits to `message`: its leaf is the leaf value of the
/// text's bytes.
pub open spec fn note_of(message: Seq<char>) -> NoteView {
    NoteView { leaf_node: leaf_value(encode_utf8(message)), message }
}

/// Calls `String::from_utf8` and drops the error's detail. The standard
/// library returns `Ok` exactly when the bytes are valid UTF-8, and the
/// string then holds those bytes.
#[verifier::external_body]
fn string_from_utf8(bytes: Vec<u8>) -> (text: Option<String>)
    ensures
        text is Some <==> valid_utf8(bytes@),
        text matches Some(s) ==> encode_utf8(s@) == bytes@,
{
    match String::from_utf8(bytes) {
        Ok(s) => Some(s),
        Err(_) => None,
    }
}

impl NoteSchema {
    /// A note of the given leaf and text. The leaf is taken as it is: that it
    /// commits to the text is the caller's business.
    pub fn new(leaf_node: [u8; 32], message: String) -> (note: NoteSchema)
        ensures
            note@.leaf_node == leaf_node@,
            note@.message == message@,
            note@.wf(),
    {
        NoteSchema { leaf_node, message }
    }

    /// The leaf.
    pub fn leaf_node(&self) -> (leaf: &[u8; 32])
        ensures
            leaf@ == self@.leaf_node,
            self@.wf(),
    {
        &self.leaf_node
    }

    /// The text.
    pub fn message(&self) -> (text: &str)
        ensures
            text@ == self@.message,
    {
        self.message.as_str()
    }

    /// Encodes the note as a record, which decodes to this note again.
    ///
    /// Fails with `MessageTooLong`, and only with it, exactly when the text
    /// does not fit.
    pub fn encode(&self) -> (out: Result<Vec<u8>, NoteError>)
        ensures
            match out {
                Ok(record) => self@.fits() && record@ == self@.record() && parse(record@) == Some(
                    self@,
                ),
                Err(e) => !self@.fits() && e == NoteError::MessageTooLong,
            },
    {
        let text = self.message.as_str().as_bytes();
        let n = text.len();
        if n > u32::MAX as usize || n > usize::MAX - HEADER_LEN {
            return Err(NoteError::MessageTooLong);
        }
        let length = u32_le(n as u32);
        let mut record: Vec<u8> = Vec::new();
        record.extend_from_slice(self.leaf_node.as_slice());
        record.extend_from_slice(length.as_slice());
        record.extend_from_slice(text);
        assert(record@ =~= self@.record());
        proof {
            lemma_parse_record(self@);
        }
        Ok(record)
    }

    /// Decodes a record.
    ///
    /// Succeeds exactly on the records that `parse` accepts, and returns the
    /// note that the record encodes. Every other input, one that is cut
    /// short, has bytes left over or carries text that is not UTF-8, fails
    /// with `MalformedRecord`.
    pub fn decode(record: &[u8]) -> (out: Result<NoteSchema, NoteError>)
        ensures
            match out {
                Ok(note) => parse(record@) == Some(note@) && note@.wf(),
                Err(e) => parse(record@) is None && e == NoteError::MalformedRecord,
            },
    {
        let total = record.len();
        if total < HEADER_LEN {
            return Err(NoteError::MalformedRecord);
        }
        let length = u32_from_le(slice_subrange(record, LEAF_LEN, HEADER_LEN));
        if total - HEADER_LEN != length as usize {
            return Err(NoteError::MalformedRecord);
        }
        let mut leaf_node = [0u8; 32];
        let mut i: usize = 0;
        while i < LEAF_LEN
            invariant
                i <= LEAF_LEN,
                record@.len() >= HEADER_LEN,
                forall|k: int| 0 <= k < i ==> leaf_node@[k] == record@[k],
            decreases LEAF_LEN - i,
        {
            leaf_node[i] = record[i];
            i = i + 1;
        }
        assert(leaf_node@ =~= record@.subrange(0, LEAF_LEN as int));
        let text = slice_to_vec(slice_subrange(record, HEADER_LEN, total));
        match string_from_utf8(text) {
            Some(message) => {
                proof {
                    encode_utf8_decode_utf8(message@);
                }
                Ok(NoteSchema { leaf_node, message })
            },
            None => Err(NoteError::MalformedRecord),
        }
    }
}

/// The little-endian bytes of `n`.
fn u32_le(n: u32) -> (bytes: [u8; 4])
    ensures
        bytes@ == le_bytes(n),
{
    let bytes = [
        (n % 256) as u8,
        ((n / 256) % 256) as u8,
        ((n / 65536) % 256) as u8,
        (n / 16777216) as u8,
    ];
    assert(bytes@ =~= le_bytes(n));
    bytes
}

/// The number that four little-endian bytes spell.
fn u32_from_le(bytes: &[u8]) -> (n: u32)
    requires
        bytes@.len() == 4,
    ensures
        n == le_value(bytes@),
{
    let b0 = bytes[0] as u32;
    let b1 = bytes[1] as u32;
    let b2 = bytes[2] as u32;
    let b3 = bytes[3] as u32;
    b0 + 256 * b1 + 65536 * b2 + 16777216 * b3
}

/// Reading back the bytes of a number gives the number.
pub proof fn lemma_le_value_of_bytes(n: u32)
    ensures
        le_bytes(n).len() == 4,
        le_value(le_bytes(n)) == n,
{
    let low = n % 65536;
    let high = n / 65536;
    assert(n == low + 65536 * high);
    assert(low == low % 256 + 256 * (low / 256));
    assert(high == high % 256 + 256 * (high / 256));
    assert(low / 256 == (n / 256) % 256);
    assert(low % 256 == n % 256);
    assert(high / 256 == n / 16777216);
}

/// Four bytes are the little-endian form of the number they spell.
pub proof fn lemma_le_bytes_of_value(bytes: Seq<u8>)
    requires
        bytes.len() == 4,
    ensures
        0 <= le_value(bytes) <= u32::MAX,
        le_bytes(le_value(bytes) as u32) == bytes,
{
    let b0 = bytes[0] as int;
    let b1 = bytes[1] as int;
    let b2 = bytes[2] as int;
    let b3 = bytes[3] as int;
    let v = le_value(bytes);
    assert(v == b0 + 256 * (b1 + 256 * (b2 + 256 * b3)));
    assert(v % 256 == b0);
    assert(v / 256 == b1 + 256 * (b2 + 256 * b3));
    assert((v / 256) % 256 == b1);
    assert(v / 65536 == b2 + 256 * b3);
    assert((v / 65536) % 256 == b2);
    assert(v / 16777216 == b3);
    assert(le_bytes(v as u32) =~= bytes);
}

/// Decoding is a left inverse of encoding: the record of a note parses, and
/// parses to that note.
pub proof fn lemma_parse_record(note: NoteView)
    requires
        note.wf(),
        note.fits(),
    ensures
        parse(note.record()) == Some(note),
{
    let text = note.message_bytes();
    let record = note.record();
    lemma_le_value_of_bytes(text.len() as u32);
    assert(record.subrange(0, 32) =~= note.leaf_node);
    assert(record.subrange(32, 36) =~= le_bytes(text.len() as u32));
    assert(record.subrange(36, record.len() as int) =~= text);
    encode_utf8_valid_utf8(note.message);
    encode_utf8_decode_utf8(note.message);
}

/// A committed note survives the round trip: for every text that fits,
/// decoding the record of its leaf and the text gives back that leaf and
/// that text.
pub proof fn lemma_round_trip(message: Seq<char>)
    requires
        note_of(message).fits(),
    ensures
        parse(note_of(message).record()) == Some(note_of(message)),
{
    lemma_parse_record(note_of(message));
}

/// Encoding is a left inverse of decoding: a record is the only encoding of
/// the note it parses to.
pub proof fn lemma_record_of_parse(record: Seq<u8>)
    requires
        parse(record) is Some,
    ensures
        parse(record)->0.wf(),
        parse(record)->0.record() == record,
{
    let note = parse(record)->0;
    let text = record.subrange(36, record.len() as int);
    decode_utf8_encode_utf8(text);
    lemma_le_bytes_of_value(record.subrange(32, 36));
    assert(note.record() =~= record);
}

} // verus!
