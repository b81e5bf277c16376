//! The calls into the `sgp4` crate, and what the library records of them.
//!
//! What `sgp4` hands back is opaque; each value is kept together with the
//! element lines it came from, so that the library can say which TLE a
//! propagator was built from. Only the functions of this module can build
//! such a value.

use vstd::prelude::*;

verus! {

#[verifier::external_type_specification]
#[verifier::external_body]
pub struct ExElements(sgp4::Elements);

#[verifier::external_type_specification]
#[verifier::external_body]
pub struct ExConstants(sgp4::Constants);

/// Whether `sgp4::Elements::from_tle` accepts the element lines `line1` and
/// `line2` (given as bytes); the object name it is also given plays no part.
pub uninterp spec fn sgp4_accepts_tle(line1: Seq<u8>, line2: Seq<u8>) -> bool;

/// The text (`Display`) of the error `sgp4::Elements::from_tle` returns for
/// element lines it rejects: which check failed, on which line, and where.
pub uninterp spec fn sgp4_tle_error_text(line1: Seq<u8>, line2: Seq<u8>) -> Seq<char>;

/// Element lines on which `sgp4::Elements::from_tle` may read a checksum
/// character below `'0'` by subtracting `b'0'` from it, which overflows.
pub open spec fn checksum_unreadable(line1: Seq<u8>, line2: Seq<u8>) -> bool {
    &&& line1.len() == 69
    &&& line2.len() == 69
    &&& (line1[68] < 48 || line2[68] < 48)
}

/// The text of an optional object name.
pub open spec fn name_text(name: Option<String>) -> Option<Seq<char>> {
    match name {
        Some(text) => Some(text@),
        None => None,
    }
}

/// Orbital elements that `sgp4` parsed, with the element lines they were
/// parsed from and the object name they were given.
pub struct ParsedTle {
    elements: sgp4::Elements,
    source: Ghost<(Seq<u8>, Seq<u8>)>,
    object_name: Ghost<Option<Seq<char>>>,
}

impl ParsedTle {
    /// The object name these elements store.
    pub closed spec fn object_name(&self) -> Option<Seq<char>> {
        self.object_name@
    }

    /// The two element lines, as bytes, that `sgp4` parsed these elements from.
    pub closed spec fn source(&self) -> (Seq<u8>, Seq<u8>) {
        self.source@
    }

    /// The elements themselves.
    pub closed spec fn held(&self) -> sgp4::Elements {
        self.elements
    }

    /// The parsed orbital elements.
    pub fn elements(&self) -> (elements: &sgp4::Elements)
        ensures
            *elements == self.held(),
    {
        &self.elements
    }
}

/// Epoch constants that `sgp4` derived, with the element lines whose parsed
/// elements they were derived from.
pub struct EpochConstants {
    constants: sgp4::Constants,
    source: Ghost<(Seq<u8>, Seq<u8>)>,
}

impl EpochConstants {
    /// The two element lines, as bytes, behind these constants.
    pub closed spec fn source(&self) -> (Seq<u8>, Seq<u8>) {
        self.source@
    }

    /// The constants themselves.
    pub closed spec fn held(&self) -> sgp4::Constants {
        self.constants
    }

    /// The epoch constants SGP4 propagates with.
    pub fn constants(&self) -> (constants: &sgp4::Constants)
        ensures
            *constants == self.held(),
    {
        &self.constants
    }
}

/// Calls `sgp4::Elements::from_tle`, which parses two TLE element lines, and
/// on failure the error's `to_string`.
///
/// Claimed: it returns `Ok` exactly when [`sgp4_accepts_tle`] holds of the two
/// lines, a function of the lines alone (the object name is only stored); the
/// elements returned are the ones parsed from these two lines, and store
/// `object_name` as their name; a rejection's
/// text is [`sgp4_tle_error_text`] of the lines. Nothing is claimed of the
/// elements' fields. The `requires` leaves out the lines on which it may
/// subtract `b'0'` from a checksum character below `'0'`, which panics in
/// builds with overflow checks.
#[verifier::external_body]
pub(crate) fn parse_elements(object_name: Option<String>, line1: &[u8], line2: &[u8]) -> (parsed:
    Result<ParsedTle, String>)
    requires
        !checksum_unreadable(line1@, line2@),
    ensures
        parsed is Ok <==> sgp4_accepts_tle(line1@, line2@),
        parsed matches Ok(elements) ==> elements.source() == (line1@, line2@)
            && elements.object_name() == name_text(object_name),
        parsed matches Err(text) ==> text@ == sgp4_tle_error_text(line1@, line2@),
{
    let name = Ghost(name_text(object_name));
    match sgp4::Elements::from_tle(object_name, line1, line2) {
        Ok(elements) => Ok(ParsedTle { elements, source: Ghost((line1@, line2@)), object_name: name }),
        Err(error) => Err(error.to_string()),
    }
}

/// Calls `sgp4::Constants::from_elements`, which derives the propagator's
/// epoch constants from parsed elements, and on failure the error's
/// `to_string`.
///
/// Claimed: the constants returned are derived from `parsed`, so they come
/// from the same element lines. Whether it succeeds, and the error's text,
/// rest on floating-point arithmetic whose precision Rust leaves to the
/// platform: neither is claimed.
#[verifier::external_body]
pub(crate) fn epoch_constants(parsed: &ParsedTle) -> (constants: Result<EpochConstants, String>)
    ensures
        constants matches Ok(derived) ==> derived.source() == parsed.source(),
{
    match sgp4::Constants::from_elements(&parsed.elements) {
        Ok(constants) => Ok(EpochConstants { constants, source: Ghost(parsed.source@) }),
        Err(error) => Err(error.to_string()),
    }
}

} // verus!
