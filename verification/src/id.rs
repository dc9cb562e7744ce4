//! Identifiers of 128 bits.
use crate::text::hex_char;
use vstd::arithmetic::power::pow;
use vstd::prelude::*;

verus! {

/// An identifier of 128 bits.
#[derive(Debug, Clone, Copy, PartialEq, Eq, Hash, Structural)]
pub struct Uuid {
    pub value: u128,
}

/// The identifier that a text denotes, or what is said of a text that denotes none.
pub uninterp spec fn uuid_of(text: Seq<char>) -> Result<u128, Seq<char>>;

/// The text of an identifier: 32 hexadecimal digits in lower case, the most significant first,
/// in groups of 8, 4, 4, 4 and 12 with hyphens in between.
pub open spec fn uuid_text(value: u128) -> Seq<char> {
    Seq::new(
        36,
        |i: int|
            if i == 8 || i == 13 || i == 18 || i == 23 {
                '-'
            } else {
                let k = if i < 8 {
                    i
                } else if i < 13 {
                    i - 1
                } else if i < 18 {
                    i - 2
                } else if i < 23 {
                    i - 3
                } else {
                    i - 4
                };
                hex_char((value as int / pow(16, (31 - k) as nat)) % 16)
            },
    )
}

/// An identifier of version 4: the version and the variant stand in six fixed bits.
pub open spec fn is_v4(value: u128) -> bool {
    (value / 0x1000_0000_0000_0000_0000) % 16 == 4 && (value / 0x4000_0000_0000_0000) % 4 == 2
}

/// `uuid::Uuid::new_v4`: a random identifier. Nothing is claimed of the random bits; the bits of
/// the version and the variant are fixed.
#[verifier::external_body]
fn random_uuid() -> (r: u128)
    ensures
        is_v4(r),
{
    uuid::Uuid::new_v4().as_u128()
}

/// `uuid::Uuid::parse_str`: the identifier that a text denotes in any of the notations that the
/// crate reads, or the text of its error. Either depends on the text alone.
#[verifier::external_body]
fn read_uuid(text: &str) -> (r: Result<u128, String>)
    ensures
        match r {
            Ok(value) => uuid_of(text@) == Ok::<u128, Seq<char>>(value),
            Err(error) => uuid_of(text@) == Err::<u128, Seq<char>>(error@),
        },
{
    uuid::Uuid::parse_str(text).map(|id| id.as_u128()).map_err(|error| error.to_string())
}

/// The hyphenated form of `uuid::Uuid`, which `parse_str` reads back.
#[verifier::external_body]
fn write_uuid(value: u128) -> (r: String)
    ensures
        r@ == uuid_text(value),
        uuid_of(r@) is Ok && uuid_of(r@)->Ok_0 == value,
{
    uuid::Uuid::from_u128(value).hyphenated().to_string()
}

impl Uuid {
    /// The identifier whose bits are all zero.
    pub fn nil() -> (r: Uuid)
        ensures
            r.value == 0,
    {
        Uuid { value: 0 }
    }

    /// Whether this is the identifier whose bits are all zero.
    pub fn is_nil(&self) -> (r: bool)
        ensures
            r == (self.value == 0),
    {
        self.value == 0
    }

    /// A random identifier. It is never nil.
    pub fn new_v4() -> (r: Uuid)
        ensures
            is_v4(r.value),
            r.value != 0,
    {
        Uuid { value: random_uuid() }
    }

    /// The identifier that a text denotes, or what is said of a text that denotes none.
    pub fn parse_str(text: &str) -> (r: Result<Uuid, String>)
        ensures
            match r {
                Ok(id) => uuid_of(text@) == Ok::<u128, Seq<char>>(id.value),
                Err(error) => uuid_of(text@) == Err::<u128, Seq<char>>(error@),
            },
    {
        match read_uuid(text) {
            Ok(value) => Ok(Uuid { value }),
            Err(error) => Err(error),
        }
    }

    /// The text of this identifier, which denotes it.
    pub fn to_text(&self) -> (r: String)
        ensures
            r@ == uuid_text(self.value),
            uuid_of(r@) == Ok::<u128, Seq<char>>(self.value),
    {
        write_uuid(self.value)
    }
}

} // verus!
