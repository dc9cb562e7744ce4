//! Artifacts that arrive in chunks.
use crate::digest::{sha256_hex, sha256_text};
use crate::domain::payload::MAX_PAYLOAD_BYTES;
use crate::id::{uuid_of, uuid_text, Uuid};
use crate::text::{append, copy, same_text};
use vstd::prelude::*;

verus! {

/// The most bytes that a capture may have.
pub const MAX_CAPTURE_BYTES: u64 = 512 * 1024 * 1024;

/// A chunk of an artifact.
#[derive(Debug, Clone, PartialEq, Eq)]
pub struct ArtifactChunk {
    pub artifact_id: String,
    pub offset: u64,
    pub data: Vec<u8>,
    pub total_size: u64,
    pub sha256: String,
    pub eof: bool,
    pub artifact_kind: String,
}

/// An artifact of which some chunks have arrived.
#[derive(Debug, Clone, PartialEq, Eq)]
pub struct IncomingArtifact {
    pub id: Uuid,
    pub received: u64,
    pub total_size: u64,
    pub sha256: String,
    pub kind: String,
}

/// An artifact that has arrived: the bytes of a payload, or where a capture is stored.
#[derive(Debug, Clone, PartialEq, Eq)]
pub enum CompletedArtifact {
    Payload(Vec<u8>),
    Capture(String),
}

/// The artifacts of an agent. No artifact is twice in either list.
#[derive(Debug, Clone, PartialEq, Eq)]
pub struct Transfers {
    pub incoming: Vec<IncomingArtifact>,
    pub completed: Vec<(Uuid, CompletedArtifact)>,
}

impl Default for Transfers {
    fn default() -> (r: Transfers)
        ensures
            r.incoming@.len() == 0,
            r.completed@.len() == 0,
    {
        Transfers { incoming: Vec::new(), completed: Vec::new() }
    }
}

/// What is to be done with an accepted chunk.
#[derive(Debug, Clone, Copy, PartialEq, Eq, Structural)]
pub enum ChunkStep {
    /// Nothing: the artifact is here already.
    Ignore,
    /// Its bytes are to be added to the stored ones. With `first` the store is new; with `last`
    /// the artifact is complete and its contents are to be checked.
    Store { first: bool, last: bool },
}

/// Why a chunk or an artifact is refused.
#[derive(Debug, Clone, PartialEq, Eq)]
pub struct TransferError {
    pub message: String,
}

/// Where an artifact is in the list of those that arrive, from `from` on.
pub open spec fn incoming_at(list: Seq<IncomingArtifact>, id: Uuid, from: int) -> Option<int>
    decreases list.len() - from,
{
    if from >= list.len() {
        None
    } else if list[from].id == id {
        Some(from)
    } else {
        incoming_at(list, id, from + 1)
    }
}

/// Where an artifact is in the list of those that have arrived, from `from` on.
pub open spec fn completed_at(
    list: Seq<(Uuid, CompletedArtifact)>,
    id: Uuid,
    from: int,
) -> Option<int>
    decreases list.len() - from,
{
    if from >= list.len() {
        None
    } else if list[from].0 == id {
        Some(from)
    } else {
        completed_at(list, id, from + 1)
    }
}

/// The most bytes that an artifact of a kind may have.
pub open spec fn artifact_limit(kind: Seq<char>) -> int {
    if kind == "pcap"@ {
        MAX_CAPTURE_BYTES as int
    } else {
        MAX_PAYLOAD_BYTES as int
    }
}

/// A complaint about an artifact.
pub open spec fn complaint(id: u128, tail: Seq<char>) -> Seq<char> {
    "artifact "@ + uuid_text(id) + tail
}

/// A chunk continues an artifact: what it says of the whole is the same as before.
pub open spec fn same_artifact(state: IncomingArtifact, chunk: ArtifactChunk) -> bool {
    &&& state.total_size == chunk.total_size
    &&& state.sha256@ == chunk.sha256@
    &&& state.kind@ == chunk.artifact_kind@
}

/// How many bytes of the artifact of a chunk have arrived before it.
pub open spec fn received_before(t: Transfers, id: Uuid) -> int {
    match incoming_at(t.incoming@, id, 0) {
        Some(i) => t.incoming@[i].received as int,
        None => 0,
    }
}

/// What is to be done with a chunk, or why it is refused, in the order in which it is looked for.
pub open spec fn chunk_outcome(t: Transfers, chunk: ArtifactChunk) -> Result<ChunkStep, Seq<char>> {
    match uuid_of(chunk.artifact_id@) {
        Err(problem) => Err(problem),
        Ok(value) => {
            let id = Uuid { value };
            let at = incoming_at(t.incoming@, id, 0);
            let received = received_before(t, id);
            if chunk.total_size > artifact_limit(chunk.artifact_kind@) {
                Err(complaint(value, " exceeds the agent limit"@))
            } else if completed_at(t.completed@, id, 0) is Some {
                Ok(ChunkStep::Ignore)
            } else if at is None && chunk.offset != 0 {
                Err(complaint(value, " first chunk offset must be zero"@))
            } else if at is Some && !same_artifact(t.incoming@[at->0], chunk) {
                Err(complaint(value, " metadata changed during transfer"@))
            } else if chunk.offset != received {
                Err(complaint(value, " chunk offset mismatch"@))
            } else if received + chunk.data@.len() > chunk.total_size {
                Err(complaint(value, " exceeds declared size"@))
            } else if chunk.eof && received + chunk.data@.len() != chunk.total_size {
                Err(complaint(value, " ended before declared size"@))
            } else {
                Ok(ChunkStep::Store { first: at is None, last: chunk.eof })
            }
        },
    }
}

/// The state of an artifact after a chunk.
pub open spec fn is_advanced(state: IncomingArtifact, id: Uuid, received: int, chunk: ArtifactChunk) -> bool {
    &&& state.id == id
    &&& state.received == received
    &&& same_artifact(state, chunk)
}

/// A chunk belongs where its artifact is: the artifact has not arrived, and the chunk is its first
/// one, or says the same of it and goes on where the one before ended.
pub open spec fn is_in_place(t: Transfers, chunk: ArtifactChunk) -> bool {
    let id = Uuid { value: uuid_of(chunk.artifact_id@)->Ok_0 };
    let at = incoming_at(t.incoming@, id, 0);
    &&& uuid_of(chunk.artifact_id@) is Ok
    &&& chunk.total_size <= artifact_limit(chunk.artifact_kind@)
    &&& completed_at(t.completed@, id, 0) is None
    &&& at is Some ==> same_artifact(t.incoming@[at->0], chunk)
    &&& chunk.offset == received_before(t, id)
}

/// How many bytes of a chunk in its place are counted: none if the artifact would then have more
/// than it declared.
pub open spec fn counted_bytes(t: Transfers, chunk: ArtifactChunk) -> int {
    let received = received_before(t, Uuid { value: uuid_of(chunk.artifact_id@)->Ok_0 });
    if received + chunk.data@.len() > chunk.total_size {
        0
    } else {
        chunk.data@.len() as int
    }
}

/// The artifacts after a chunk in its place: the artifact is among those that arrive, with the
/// bytes that are counted, and no other changes.
pub open spec fn is_after_chunk(before: Transfers, after: Transfers, chunk: ArtifactChunk) -> bool {
    let id = Uuid { value: uuid_of(chunk.artifact_id@)->Ok_0 };
    let received = received_before(before, id) + counted_bytes(before, chunk);
    &&& after.completed == before.completed
    &&& match incoming_at(before.incoming@, id, 0) {
        Some(i) => {
            &&& after.incoming@.len() == before.incoming@.len()
            &&& is_advanced(after.incoming@[i], id, received, chunk)
            &&& forall|j: int|
                0 <= j < before.incoming@.len() && j != i ==> (#[trigger] after.incoming@[j])
                    == before.incoming@[j]
        },
        None => {
            &&& after.incoming@.len() == before.incoming@.len() + 1
            &&& is_advanced(after.incoming@.last(), id, received, chunk)
            &&& after.incoming@.drop_last() == before.incoming@
        },
    }
}

/// Every artifact that arrives has at most as many bytes as it declared, and no more than its
/// kind may have.
pub open spec fn within_limits(t: Transfers) -> bool {
    forall|i: int|
        0 <= i < t.incoming@.len() ==> (#[trigger] t.incoming@[i]).received
            <= t.incoming@[i].total_size <= artifact_limit(t.incoming@[i].kind@)
}

/// A chunk keeps every artifact within its declared size and its limit.
pub proof fn chunks_stay_within_limits(before: Transfers, after: Transfers, chunk: ArtifactChunk)
    requires
        within_limits(before),
        is_in_place(before, chunk),
        is_after_chunk(before, after, chunk),
    ensures
        within_limits(after),
{
    let id = Uuid { value: uuid_of(chunk.artifact_id@)->Ok_0 };
    assert forall|i: int| 0 <= i < after.incoming@.len() implies (#[trigger] after.incoming@[i]).received
        <= after.incoming@[i].total_size <= artifact_limit(after.incoming@[i].kind@) by {
        match incoming_at(before.incoming@, id, 0) {
            Some(k) => {
                if i != k {
                    assert(after.incoming@[i] == before.incoming@[i]);
                }
            },
            None => {
                if i < before.incoming@.len() {
                    assert(after.incoming@.drop_last()[i] == before.incoming@[i]);
                }
            },
        }
    }
}

impl Transfers {
    fn incoming_position(&self, id: Uuid) -> (r: Option<usize>)
        ensures
            match r {
                Some(i) => incoming_at(self.incoming@, id, 0) == Some(i as int) && i
                    < self.incoming@.len() && self.incoming@[i as int].id == id,
                None => incoming_at(self.incoming@, id, 0) is None,
            },
    {
        let mut i: usize = 0;
        while i < self.incoming.len()
            invariant
                incoming_at(self.incoming@, id, 0) == incoming_at(self.incoming@, id, i as int),
            decreases self.incoming@.len() - i,
        {
            if self.incoming[i].id == id {
                return Some(i);
            }
            i += 1;
        }
        None
    }

    fn completed_position(&self, id: Uuid) -> (r: Option<usize>)
        ensures
            match r {
                Some(i) => completed_at(self.completed@, id, 0) == Some(i as int) && i
                    < self.completed@.len(),
                None => completed_at(self.completed@, id, 0) is None,
            },
    {
        let mut i: usize = 0;
        while i < self.completed.len()
            invariant
                completed_at(self.completed@, id, 0) == completed_at(self.completed@, id, i as int),
            decreases self.completed@.len() - i,
        {
            if self.completed[i].0 == id {
                return Some(i);
            }
            i += 1;
        }
        None
    }

    /// The artifact with an identifier, if it has arrived.
    pub fn find(&self, id: Uuid) -> (r: Option<&CompletedArtifact>)
        ensures
            match completed_at(self.completed@, id, 0) {
                Some(i) => r == Some(&self.completed@[i].1),
                None => r is None,
            },
    {
        match self.completed_position(id) {
            Some(i) => Some(&self.completed[i].1),
            None => None,
        }
    }
}

/// A complaint about an artifact.
fn refuse(id: Uuid, tail: &str) -> (r: TransferError)
    ensures
        r.message@ == complaint(id.value, tail@),
{
    let mut message = copy("artifact ");
    let text = id.to_text();
    append(&mut message, text.as_str());
    append(&mut message, tail);
    TransferError { message }
}

/// Takes a chunk: what is to be done with its bytes, or why it is refused. A chunk that is ignored
/// or is not in its place changes nothing. One in its place is taken up even if it is then refused
/// for its size.
pub fn accept_chunk(t: &mut Transfers, chunk: &ArtifactChunk) -> (r: Result<
    ChunkStep,
    TransferError,
>)
    requires
        within_limits(*old(t)),
    ensures
        match r {
            Ok(step) => chunk_outcome(*old(t), *chunk) == Ok::<ChunkStep, Seq<char>>(step),
            Err(error) => chunk_outcome(*old(t), *chunk) == Err::<ChunkStep, Seq<char>>(
                error.message@,
            ),
        },
        if is_in_place(*old(t), *chunk) {
            is_after_chunk(*old(t), *final(t), *chunk)
        } else {
            *final(t) == *old(t)
        },
        within_limits(*final(t)),
{
    let ghost before = *t;
    let id: Uuid = match Uuid::parse_str(chunk.artifact_id.as_str()) {
        Ok(id) => id,
        Err(message) => {
            return Err(TransferError { message });
        },
    };
    let limit: u64 = if same_text(chunk.artifact_kind.as_str(), "pcap") {
        MAX_CAPTURE_BYTES
    } else {
        MAX_PAYLOAD_BYTES as u64
    };
    if chunk.total_size > limit {
        return Err(refuse(id, " exceeds the agent limit"));
    }
    if t.completed_position(id).is_some() {
        return Ok(ChunkStep::Ignore);
    }
    let at: Option<usize> = t.incoming_position(id);
    if at.is_none() && chunk.offset != 0 {
        return Err(refuse(id, " first chunk offset must be zero"));
    }
    let received: u64 = match at {
        Some(i) => {
            let state = &t.incoming[i];
            if state.total_size != chunk.total_size || !same_text(
                state.sha256.as_str(),
                chunk.sha256.as_str(),
            ) || !same_text(state.kind.as_str(), chunk.artifact_kind.as_str()) {
                return Err(refuse(id, " metadata changed during transfer"));
            }
            state.received
        },
        None => 0,
    };
    if chunk.offset != received {
        return Err(refuse(id, " chunk offset mismatch"));
    }
    let length: u64 = chunk.data.len() as u64;
    let fits: bool = received.saturating_add(length) <= chunk.total_size;
    let total: u64 = if fits {
        received + length
    } else {
        received
    };
    let state = IncomingArtifact {
        id,
        received: total,
        total_size: chunk.total_size,
        sha256: copy(chunk.sha256.as_str()),
        kind: copy(chunk.artifact_kind.as_str()),
    };
    match at {
        Some(i) => {
            t.incoming[i] = state;
        },
        None => {
            t.incoming.push(state);
            assert(t.incoming@.drop_last() =~= before.incoming@);
        },
    }
    assert(is_after_chunk(before, *t, *chunk));
    proof {
        chunks_stay_within_limits(before, *t, *chunk);
    }
    if !fits {
        return Err(refuse(id, " exceeds declared size"));
    }
    if chunk.eof && total != chunk.total_size {
        return Err(refuse(id, " ended before declared size"));
    }
    Ok(ChunkStep::Store { first: at.is_none(), last: chunk.eof })
}

/// What becomes of a complete artifact with these contents: it has arrived if the contents have
/// the declared digest.
pub open spec fn contents_match(state: IncomingArtifact, content: Seq<u8>) -> bool {
    sha256_text(content) == state.sha256@
}

/// Checks the contents of a complete artifact. It leaves the list of those that arrive either
/// way; with the declared digest it joins those that have arrived, a capture by its path and a
/// payload by its bytes.
pub fn finish(t: &mut Transfers, id: Uuid, content: Vec<u8>, path: &str) -> (r: Result<
    (),
    TransferError,
>)
    ensures
        match incoming_at(old(t).incoming@, id, 0) {
            None => r is Err && r->Err_0.message@ == "artifact transfer state"@ && *final(t)
                == *old(t),
            Some(i) => {
                let state = old(t).incoming@[i];
                &&& final(t).incoming@ == old(t).incoming@.remove(i)
                &&& r is Ok <==> contents_match(state, content@)
                &&& r is Ok ==> {
                    &&& final(t).completed@.len() == old(t).completed@.len() + 1
                    &&& final(t).completed@.drop_last() == old(t).completed@
                    &&& final(t).completed@.last().0 == id
                    &&& match final(t).completed@.last().1 {
                        CompletedArtifact::Capture(stored) => state.kind@ == "pcap"@ && stored@
                            == path@,
                        CompletedArtifact::Payload(bytes) => state.kind@ != "pcap"@ && bytes@
                            == content@,
                    }
                }
                &&& r is Err ==> r->Err_0.message@ == complaint(id.value, " SHA-256 mismatch"@)
                    && final(t).completed == old(t).completed
            },
        },
{
    let ghost before = *t;
    let i: usize = match t.incoming_position(id) {
        Some(i) => i,
        None => {
            return Err(TransferError { message: copy("artifact transfer state") });
        },
    };
    let finished = t.incoming.remove(i);
    let actual = sha256_hex(content.as_slice());
    if !same_text(actual.as_str(), finished.sha256.as_str()) {
        return Err(refuse(id, " SHA-256 mismatch"));
    }
    let artifact = if same_text(finished.kind.as_str(), "pcap") {
        CompletedArtifact::Capture(copy(path))
    } else {
        CompletedArtifact::Payload(content)
    };
    t.completed.push((id, artifact));
    assert(t.completed@.drop_last() =~= before.completed@);
    Ok(())
}

} // verus!
