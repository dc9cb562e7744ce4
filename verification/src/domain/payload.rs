//! Payloads of requests and responses.
use crate::id::Uuid;
use vstd::prelude::*;
use vstd::utf8::encode_utf8;

verus! {

/// The most bytes that a payload may have.
pub const MAX_PAYLOAD_BYTES: usize = 64 * 1024 * 1024;

/// Where payloads come from.
#[derive(Debug, Clone, Copy, PartialEq, Eq, Structural)]
pub enum PayloadMode {
    Manual,
    CaptureReplay,
}

impl Default for PayloadMode {
    fn default() -> (r: PayloadMode)
        ensures
            r == PayloadMode::Manual,
    {
        PayloadMode::Manual
    }
}

/// How the bytes of a payload are made.
#[derive(Debug, Clone, Copy, PartialEq, Eq, Structural)]
pub enum PayloadKind {
    Empty,
    Fixed,
    Text,
    File,
    Random,
}

impl Default for PayloadKind {
    fn default() -> (r: PayloadKind)
        ensures
            r == PayloadKind::Fixed,
    {
        PayloadKind::Fixed
    }
}

/// Which bytes a random payload is made of.
#[derive(Debug, Clone, Copy, PartialEq, Eq, Structural)]
pub enum RandomFormat {
    Binary,
    PrintableAscii,
}

impl Default for RandomFormat {
    fn default() -> (r: RandomFormat)
        ensures
            r == RandomFormat::Binary,
    {
        RandomFormat::Binary
    }
}

/// A payload, as a scenario describes it.
#[derive(Debug, PartialEq, Eq)]
pub struct PayloadProfile {
    pub kind: PayloadKind,
    pub size_bytes: usize,
    pub text: String,
    pub artifact_id: Option<Uuid>,
    pub random_format: RandomFormat,
}

impl Clone for PayloadProfile {
    fn clone(&self) -> (r: PayloadProfile)
        ensures
            r == *self,
    {
        PayloadProfile {
            kind: self.kind,
            size_bytes: self.size_bytes,
            text: self.text.clone(),
            artifact_id: self.artifact_id,
            random_format: self.random_format,
        }
    }
}

/// A payload of so many fixed bytes.
pub open spec fn is_fixed(p: PayloadProfile, size_bytes: usize) -> bool {
    &&& p.kind == PayloadKind::Fixed
    &&& p.size_bytes == size_bytes
    &&& p.text@ == Seq::<char>::empty()
    &&& p.artifact_id is None
    &&& p.random_format == RandomFormat::Binary
}

impl Default for PayloadProfile {
    fn default() -> (r: PayloadProfile)
        ensures
            is_fixed(r, 0),
    {
        PayloadProfile::fixed(0)
    }
}

impl PayloadProfile {
    /// A payload of so many fixed bytes.
    pub fn fixed(size_bytes: usize) -> (r: PayloadProfile)
        ensures
            is_fixed(r, size_bytes),
    {
        PayloadProfile {
            kind: PayloadKind::Fixed,
            size_bytes,
            text: String::new(),
            artifact_id: None,
            random_format: RandomFormat::Binary,
        }
    }

    /// How many bytes the payload has. A text counts in UTF-8, whatever `size_bytes` says.
    pub open spec fn length(&self) -> int {
        match self.kind {
            PayloadKind::Empty => 0,
            PayloadKind::Text => encode_utf8(self.text@).len() as int,
            _ => self.size_bytes as int,
        }
    }

    /// How many bytes the payload has.
    pub fn byte_len(&self) -> (r: usize)
        ensures
            r == self.length(),
    {
        match self.kind {
            PayloadKind::Empty => 0,
            PayloadKind::Text => self.text.as_str().as_bytes().len(),
            _ => self.size_bytes,
        }
    }
}

} // verus!
