use vstd::prelude::*;

verus! {

/// A monetary value, held as the bit pattern of the single-precision number
/// that a record stores. Records carry it unchanged; nothing here computes with it.
#[derive(Clone, Copy, Debug, PartialEq, Eq, Structural)]
pub struct Amount {
    pub bits: u32,
}

/// A calendar date, as a count of days in which 1 January of year 1 is day 1.
#[derive(Clone, Copy, Debug, PartialEq, Eq, Structural)]
pub struct Date {
    pub days: i32,
}

/// Why an operation on the records failed.
#[derive(Clone, Copy, Debug, PartialEq, Eq, Structural)]
pub enum ModelError {
    /// A record named by its identifier is not there.
    EntityNotFound,
    /// The external identifier is already taken in the table.
    DuplicatePid,
    /// A referenced internal key is not in its table.
    ForeignKeyViolation,
    /// The internal key is already taken in the table.
    DuplicateId,
    /// The table has handed out every internal key that fits.
    IdsExhausted,
}

/// The result is a success, or a failure that only a drawn identifier or an
/// exhausted key space can cause.
pub open spec fn only_draw_errors<T>(r: Result<T, ModelError>) -> bool {
    match r {
        Ok(_) => true,
        Err(e) => e == ModelError::DuplicatePid || e == ModelError::IdsExhausted,
    }
}

/// Relies on `uuid::Uuid::new_v4`: a random version-4 identifier, taken as its
/// 128-bit value. Nothing is promised of the value.
#[verifier::external_body]
pub(crate) fn fresh_pid() -> (r: u128) {
    uuid::Uuid::new_v4().as_u128()
}

/// The 128-bit value of the identifier that a text spells, if it spells one.
pub uninterp spec fn uuid_parse(s: Seq<char>) -> Option<u128>;

/// Relies on `uuid::Uuid::parse_str`: reads an identifier written in one of the
/// textual forms that crate accepts; the result depends on the text alone.
#[verifier::external_body]
pub(crate) fn parse_pid(s: &str) -> (r: Option<u128>)
    ensures
        r == uuid_parse(s@),
{
    uuid::Uuid::parse_str(s).ok().map(|u| u.as_u128())
}

/// An exact copy of an optional text.
pub fn copy_text(s: &Option<String>) -> (r: Option<String>)
    ensures
        r == *s,
{
    match s {
        Some(t) => Some(t.clone()),
        None => None,
    }
}

} // verus!
