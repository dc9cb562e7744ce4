//! The bytes of payloads.
use crate::agent::artifact::{completed_at, CompletedArtifact, Transfers};
use crate::domain::payload::{PayloadKind, PayloadProfile, RandomFormat};
use crate::domain::scenario::{
    first_of, plain_request_bytes, plain_response_bytes, Scenario,
};
use crate::id::{uuid_text, Uuid};
use crate::text::{append, copy};
use vstd::prelude::*;
use vstd::utf8::encode_utf8;

verus! {

/// `rand::RngCore::fill_bytes` of the thread's generator: so many random bytes. Nothing is
/// claimed of them but their number.
#[verifier::external_body]
fn random_bytes(count: usize) -> (r: Vec<u8>)
    ensures
        r@.len() == count,
{
    let mut data = vec![0u8; count];
    rand::RngCore::fill_bytes(&mut rand::rng(), &mut data);
    data
}

/// A byte as a printable ASCII character.
pub open spec fn printable(b: u8) -> u8 {
    (0x20 + b % 95) as u8
}

/// Bytes as a random payload of a format has them.
pub open spec fn formatted(data: Seq<u8>, format: RandomFormat) -> Seq<u8> {
    match format {
        RandomFormat::Binary => data,
        RandomFormat::PrintableAscii => data.map_values(|b: u8| printable(b)),
    }
}

/// The bytes of a random payload: the given ones, as the format has them.
pub fn format_random(data: Vec<u8>, format: RandomFormat) -> (r: Vec<u8>)
    ensures
        r@ == formatted(data@, format),
        format == RandomFormat::PrintableAscii ==> forall|i: int|
            0 <= i < r@.len() ==> 0x20 <= #[trigger] r@[i] && r@[i] <= 0x7e,
{
    match format {
        RandomFormat::Binary => data,
        RandomFormat::PrintableAscii => {
            let mut out: Vec<u8> = Vec::new();
            let mut i: usize = 0;
            while i < data.len()
                invariant
                    i <= data@.len(),
                    out@.len() == i,
                    forall|j: int| 0 <= j < i ==> #[trigger] out@[j] == printable(data@[j]),
                decreases data@.len() - i,
            {
                out.push(0x20 + data[i] % 95);
                i += 1;
            }
            assert(out@ =~= formatted(data@, format));
            out
        },
    }
}

/// So many zero bytes.
pub open spec fn zeroes(count: int) -> Seq<u8> {
    Seq::new(count as nat, |i: int| 0u8)
}

/// So many zero bytes.
pub fn zero_bytes(count: usize) -> (r: Vec<u8>)
    ensures
        r@ == zeroes(count as int),
{
    let r: Vec<u8> = vec![0u8; count];
    assert(r@ =~= zeroes(count as int));
    r
}

/// What is said of an artifact that a payload needs and that has not arrived.
pub open spec fn missing_artifact(id: Uuid) -> Seq<char> {
    "artifact "@ + uuid_text(id.value) + " was not transferred"@
}

/// The bytes of a payload, or why there are none. Those of a random payload are any of its
/// length and format.
pub open spec fn is_materialized(
    r: Result<Seq<u8>, Seq<char>>,
    profile: PayloadProfile,
    artifacts: Transfers,
) -> bool {
    match profile.kind {
        PayloadKind::Empty => r == Ok::<Seq<u8>, Seq<char>>(Seq::empty()),
        PayloadKind::Fixed => r == Ok::<Seq<u8>, Seq<char>>(zeroes(profile.size_bytes as int)),
        PayloadKind::Text => r == Ok::<Seq<u8>, Seq<char>>(encode_utf8(profile.text@)),
        PayloadKind::Random => r is Ok && exists|data: Seq<u8>|
            data.len() == profile.size_bytes && r->Ok_0 == #[trigger] formatted(
                data,
                profile.random_format,
            ),
        PayloadKind::File => match profile.artifact_id {
            None => r == Err::<Seq<u8>, Seq<char>>("file payload artifact ID"@),
            Some(id) => match completed_at(artifacts.completed@, id, 0) {
                Some(i) => match artifacts.completed@[i].1 {
                    CompletedArtifact::Payload(bytes) => r == Ok::<Seq<u8>, Seq<char>>(bytes@),
                    CompletedArtifact::Capture(_) => r == Err::<Seq<u8>, Seq<char>>(
                        missing_artifact(id),
                    ),
                },
                None => r == Err::<Seq<u8>, Seq<char>>(missing_artifact(id)),
            },
        },
    }
}

/// The view of a result.
pub open spec fn bytes_view(r: Result<Vec<u8>, String>) -> Result<Seq<u8>, Seq<char>> {
    match r {
        Ok(bytes) => Ok(bytes@),
        Err(message) => Err(message@),
    }
}

/// A payload that is no file has as many bytes as its profile says.
pub proof fn materialized_length(
    bytes: Seq<u8>,
    profile: PayloadProfile,
    artifacts: Transfers,
)
    requires
        is_materialized(Ok(bytes), profile, artifacts),
        profile.kind != PayloadKind::File,
    ensures
        bytes.len() == profile.length(),
{
}

/// The bytes of a payload.
pub fn materialize(profile: &PayloadProfile, artifacts: &Transfers) -> (r: Result<Vec<u8>, String>)
    ensures
        is_materialized(bytes_view(r), *profile, *artifacts),
{
    match profile.kind {
        PayloadKind::Empty => {
            let none: Vec<u8> = Vec::new();
            assert(none@ =~= Seq::empty());
            Ok(none)
        },
        PayloadKind::Fixed => Ok(zero_bytes(profile.size_bytes)),
        PayloadKind::Text => Ok(vstd::slice::slice_to_vec(profile.text.as_str().as_bytes())),
        PayloadKind::Random => {
            let data = random_bytes(profile.size_bytes);
            let ghost seed = data@;
            let out = format_random(data, profile.random_format);
            assert(out@ == formatted(seed, profile.random_format));
            Ok(out)
        },
        PayloadKind::File => {
            let id: Uuid = match profile.artifact_id {
                Some(id) => id,
                None => {
                    return Err(copy("file payload artifact ID"));
                },
            };
            match artifacts.find(id) {
                Some(CompletedArtifact::Payload(bytes)) => Ok(
                    vstd::slice::slice_to_vec(bytes.as_slice()),
                ),
                _ => {
                    let mut message = copy("artifact ");
                    let text = id.to_text();
                    append(&mut message, text.as_str());
                    append(&mut message, " was not transferred");
                    Err(message)
                },
            }
        },
    }
}

/// Why a payload in use cannot be made: it is a file that has not arrived.
pub open spec fn making_problem(given: Option<PayloadProfile>, artifacts: Transfers) -> Option<
    Seq<char>,
> {
    match given {
        Some(profile) => if profile.kind != PayloadKind::File {
            None
        } else {
            match profile.artifact_id {
                None => Some("file payload artifact ID"@),
                Some(id) => match completed_at(artifacts.completed@, id, 0) {
                    Some(i) => match artifacts.completed@[i].1 {
                        CompletedArtifact::Payload(_) => None,
                        CompletedArtifact::Capture(_) => Some(missing_artifact(id)),
                    },
                    None => Some(missing_artifact(id)),
                },
            }
        },
        None => None,
    }
}

/// The bytes of a payload in use: those of the given one, or so many zero bytes.
pub open spec fn is_made(
    bytes: Seq<u8>,
    given: Option<PayloadProfile>,
    count: usize,
    artifacts: Transfers,
) -> bool {
    match given {
        Some(profile) => is_materialized(Ok(bytes), profile, artifacts),
        None => bytes == zeroes(count as int),
    }
}

/// The payloads of a run.
#[derive(Debug, Clone, PartialEq, Eq)]
pub struct PreparedPayloads {
    pub request: Vec<u8>,
    pub response: Vec<u8>,
}

impl PreparedPayloads {
    /// The payloads of a scenario: those of its request and its response payload, or why the
    /// first that cannot be made is missing.
    pub fn new(scenario: &Scenario, artifacts: &Transfers) -> (r: Result<PreparedPayloads, String>)
        ensures
            match r {
                Ok(payloads) => {
                    &&& is_made(
                        payloads.request@,
                        scenario.request_payload,
                        plain_request_bytes(*scenario),
                        *artifacts,
                    )
                    &&& is_made(
                        payloads.response@,
                        scenario.response_payload,
                        plain_response_bytes(*scenario),
                        *artifacts,
                    )
                    &&& making_problem(scenario.request_payload, *artifacts) is None
                    &&& making_problem(scenario.response_payload, *artifacts) is None
                },
                Err(message) => first_of(
                    making_problem(scenario.request_payload, *artifacts),
                    making_problem(scenario.response_payload, *artifacts),
                ) == Some(message@),
            },
    {
        let request_profile = scenario.request_payload();
        let response_profile = scenario.response_payload();
        let request = match materialize(&request_profile, artifacts) {
            Ok(bytes) => bytes,
            Err(message) => {
                return Err(message);
            },
        };
        let response = match materialize(&response_profile, artifacts) {
            Ok(bytes) => bytes,
            Err(message) => {
                return Err(message);
            },
        };
        Ok(PreparedPayloads { request, response })
    }
}

} // verus!
