//! Identifiers of participants and rooms: 128-bit random values, written as
//! UUID text.

use vstd::prelude::*;

verus! {

/// What `Uuid::parse_str` makes of a text, as a 128-bit value.
pub uninterp spec fn uuid_parse(s: Seq<char>) -> Option<u128>;

/// The hyphenated text that `Uuid` displays for a 128-bit value.
pub uninterp spec fn uuid_text(v: u128) -> Seq<char>;

/// Relies on `Uuid::new_v4`: a fresh random identifier. Nothing is known of
/// its value.
#[verifier::external_body]
fn fresh_uuid() -> u128 {
    uuid::Uuid::new_v4().as_u128()
}

/// Relies on `Uuid::parse_str`: the outcome depends on the text alone, and
/// no text shorter than the 32 digits of the simple form is read.
#[verifier::external_body]
fn parse_uuid(s: &str) -> (r: Option<u128>)
    ensures
        r == uuid_parse(s@),
        s@.len() < 32 ==> r is None,
{
    uuid::Uuid::parse_str(s).ok().map(|u| u.as_u128())
}

/// Relies on `Uuid`'s `Display`: hyphenated lower-case text, which
/// `Uuid::parse_str` reads back to the same value.
#[verifier::external_body]
fn uuid_to_string(v: u128) -> (r: String)
    ensures
        r@ == uuid_text(v),
        uuid_parse(r@) == Some(v),
{
    uuid::Uuid::from_u128(v).to_string()
}

/// The token that a human participant holds.
#[derive(Clone, Copy, Debug, PartialEq, Eq, Hash, Structural)]
pub struct AccessToken(pub u128);

/// The token that stands for a bot participant.
#[derive(Clone, Copy, Debug, PartialEq, Eq, Hash, Structural)]
pub struct BotToken(pub u128);

/// The identifier of one match.
#[derive(Clone, Copy, Debug, PartialEq, Eq, Hash, Structural)]
pub struct RoomId(pub u128);

impl AccessToken {
    pub fn new_random() -> (r: AccessToken) {
        AccessToken(fresh_uuid())
    }

    /// Reads a token from its text; `None` where the text is no UUID.
    pub fn parse_str(s: &str) -> (r: Option<AccessToken>)
        ensures
            s@.len() < 32 ==> r is None,
            r == (match uuid_parse(s@) {
                Some(v) => Some(AccessToken(v)),
                None => None,
            }),
    {
        match parse_uuid(s) {
            Some(v) => Some(AccessToken(v)),
            None => None,
        }
    }

    pub fn to_string(&self) -> (r: String)
        ensures
            r@ == uuid_text(self.0),
            uuid_parse(r@) == Some(self.0),
    {
        uuid_to_string(self.0)
    }
}

impl BotToken {
    pub fn new_random() -> (r: BotToken) {
        BotToken(fresh_uuid())
    }

    pub fn to_string(&self) -> (r: String)
        ensures
            r@ == uuid_text(self.0),
    {
        uuid_to_string(self.0)
    }
}

impl RoomId {
    pub fn new_random() -> (r: RoomId) {
        RoomId(fresh_uuid())
    }

    pub fn to_string(&self) -> (r: String)
        ensures
            r@ == uuid_text(self.0),
    {
        uuid_to_string(self.0)
    }
}

} // verus!
