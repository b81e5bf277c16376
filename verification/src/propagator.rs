//! SGP4 propagation: reading a two-line element set and handing it to the
//! `sgp4` crate.
//!
//! The element lines are picked out of the text here and verified; the
//! orbital mechanics are `sgp4`'s.

use vstd::prelude::*;
use vstd::utf8::encode_utf8;

use crate::sgp4_calls::{
    epoch_constants, name_text, parse_elements, sgp4_accepts_tle, sgp4_tle_error_text, EpochConstants,
    ParsedTle,
};
use crate::text::{
    all_white_space, chars_of, decimal, lemma_non_blank_after_first_line,
    lemma_non_blank_lines_concat, lemma_non_blank_lines_of_nothing,
    lemma_white_space_padding_is_ignored, non_blank_line_bounds, non_blank_lines, push_decimal,
    trim,
};

verus! {

/// The bytes of an element line that are handed to `sgp4`.
///
/// `sgp4` checks a full-length line's last character, its checksum digit, by
/// subtracting `b'0'`; a character below `'0'` overflows there, a panic in
/// builds with overflow checks and a wrapped value that never matches the
/// checksum in builds without them. Such a character is handed over as `'X'`
/// instead, which `sgp4` reads no other way and which never matches a checksum
/// either: `sgp4` then reports what it reports without overflow checks.
pub open spec fn sgp4_line(line: Seq<u8>) -> Seq<u8> {
    if line.len() == 69 && line[68] < 48 {
        line.update(68, 88)
    } else {
        line
    }
}

/// Why a satellite could not be propagated.
#[derive(Debug)]
pub enum PropagatorError {
    /// The TLE did not contain two usable element lines.
    MalformedTle { detail: String },
    /// SGP4 rejected the elements or could not propagate to the requested time.
    Propagation { detail: String },
}

impl PropagatorError {
    /// The text that describes this error.
    pub open spec fn text(&self) -> Seq<char> {
        match self {
            PropagatorError::MalformedTle { detail } => "malformed TLE: "@ + detail@,
            PropagatorError::Propagation { detail } => "propagation failed: "@ + detail@,
        }
    }

    /// Describes this error for a person.
    pub fn message(&self) -> (message: String)
        ensures
            message@ == self.text(),
    {
        match self {
            PropagatorError::MalformedTle { detail } => String::from_str("malformed TLE: ").concat(
                detail.as_str(),
            ),
            PropagatorError::Propagation { detail } => String::from_str(
                "propagation failed: ",
            ).concat(detail.as_str()),
        }
    }
}

/// The two element lines of `tle`: its only two non-blank lines, or the last
/// two of three, the first being a title. `None` for any other count.
pub open spec fn element_lines(tle: Seq<char>) -> Option<(Seq<char>, Seq<char>)> {
    let lines = non_blank_lines(tle);
    if lines.len() == 2 {
        Some((lines[0], lines[1]))
    } else if lines.len() == 3 {
        Some((lines[1], lines[2]))
    } else {
        None
    }
}

/// What [`Propagator::from_tle`] may return for a TLE `tle` and object name
/// `name`: a malformed-TLE error when the TLE has neither two nor three
/// non-blank lines, with the count; otherwise the element lines, as handed to
/// `sgp4` (see [`sgp4_line`]), decide. Lines that `sgp4` rejects give a
/// malformed-TLE error with `sgp4`'s text; lines it accepts give a propagator
/// holding the elements parsed from them under `name`, with the constants
/// derived from those, or a propagation error when `sgp4` cannot derive them.
pub open spec fn tle_outcome(
    name: Option<Seq<char>>,
    tle: Seq<char>,
    result: Result<Propagator, PropagatorError>,
) -> bool {
    match element_lines(tle) {
        None => result matches Err(PropagatorError::MalformedTle { detail }) && detail@
            == "expected 2 element lines, found "@ + decimal(non_blank_lines(tle).len()),
        Some((line1, line2)) => {
            let bytes1 = sgp4_line(encode_utf8(line1));
            let bytes2 = sgp4_line(encode_utf8(line2));
            if !sgp4_accepts_tle(bytes1, bytes2) {
                result matches Err(PropagatorError::MalformedTle { detail }) && detail@
                    == sgp4_tle_error_text(bytes1, bytes2)
            } else {
                ||| result matches Ok(propagator) && propagator.elements_source() == (
                    bytes1,
                    bytes2,
                ) && propagator.constants_source() == (bytes1, bytes2)
                    && propagator.object_name() == name
                ||| result matches Err(PropagatorError::Propagation { .. })
            }
        },
    }
}

/// An SGP4 propagator for one satellite.
pub struct Propagator {
    elements: ParsedTle,
    constants: EpochConstants,
}

impl Propagator {
    /// The orbital elements this propagator holds, as `sgp4` parsed them.
    pub closed spec fn held_elements(&self) -> sgp4::Elements {
        self.elements.held()
    }

    /// The epoch constants this propagator holds, as `sgp4` derived them.
    pub closed spec fn held_constants(&self) -> sgp4::Constants {
        self.constants.held()
    }

    /// The object name the held elements store.
    pub closed spec fn object_name(&self) -> Option<Seq<char>> {
        self.elements.object_name()
    }

    /// The element lines, as bytes, that the held elements were parsed from.
    pub closed spec fn elements_source(&self) -> (Seq<u8>, Seq<u8>) {
        self.elements.source()
    }

    /// The element lines, as bytes, whose elements the held constants were
    /// derived from.
    pub closed spec fn constants_source(&self) -> (Seq<u8>, Seq<u8>) {
        self.constants.source()
    }

    /// The parsed orbital elements.
    pub fn elements(&self) -> (elements: &sgp4::Elements)
        ensures
            *elements == self.held_elements(),
    {
        self.elements.elements()
    }

    /// The epoch constants SGP4 propagates with.
    pub fn constants(&self) -> (constants: &sgp4::Constants)
        ensures
            *constants == self.held_constants(),
    {
        self.constants.constants()
    }

    /// Builds a propagator from parsed elements and the outcome of deriving
    /// epoch constants from them: the propagator on success, otherwise a
    /// propagation error carrying the text `sgp4` gave.
    pub fn assemble(elements: ParsedTle, constants: Result<EpochConstants, String>) -> (result:
        Result<Self, PropagatorError>)
        requires
            constants matches Ok(derived) ==> derived.source() == elements.source(),
        ensures
            constants is Ok <==> result is Ok,
            result matches Ok(propagator) ==> propagator.elements_source() == elements.source()
                && propagator.constants_source() == elements.source()
                && propagator.object_name() == elements.object_name()
                && propagator.held_elements() == elements.held()
                && propagator.held_constants() == constants->Ok_0.held(),
            constants matches Err(text) ==> result matches Err(
                PropagatorError::Propagation { detail },
            ) && detail@ == text@,
    {
        match constants {
            Ok(constants) => Ok(Propagator { elements, constants }),
            Err(detail) => Err(PropagatorError::Propagation { detail }),
        }
    }

    /// Parses a TLE given as one string with the two element lines separated
    /// by newlines. An optional leading title line is ignored; blank lines and
    /// whitespace around each line are too.
    ///
    /// Any other number of non-blank lines is a malformed TLE, as are element
    /// lines that `sgp4` rejects, reported with `sgp4`'s text; elements from
    /// which `sgp4` cannot derive epoch constants are a propagation error.
    /// None of these panics (see [`sgp4_line`]). A propagator returned holds
    /// the elements `sgp4` parsed from this TLE's element lines, and the
    /// constants derived from them.
    pub fn from_tle(name: Option<String>, tle: &str) -> (result: Result<Self, PropagatorError>)
        ensures
            tle_outcome(name_text(name), tle@, result),
    {
        let chars = chars_of(tle);
        let bounds = non_blank_line_bounds(&chars);
        let count = bounds.len();
        if count != 2 && count != 3 {
            let mut detail = String::from_str("expected 2 element lines, found ");
            push_decimal(&mut detail, count);
            return Err(PropagatorError::MalformedTle { detail });
        }
        let first = count - 2;
        let (start1, end1) = bounds[first];
        let (start2, end2) = bounds[first + 1];
        let line1 = handed_to_sgp4(tle.substring_char(start1, end1));
        let line2 = handed_to_sgp4(tle.substring_char(start2, end2));
        let elements = match parse_elements(name, line1.as_slice(), line2.as_slice()) {
            Ok(elements) => elements,
            Err(detail) => {
                return Err(PropagatorError::MalformedTle { detail });
            },
        };
        let constants = epoch_constants(&elements);
        Self::assemble(elements, constants)
    }
}

/// The bytes of element line `line` that are handed to `sgp4`.
fn handed_to_sgp4(line: &str) -> (bytes: Vec<u8>)
    ensures
        bytes@ == sgp4_line(encode_utf8(line@)),
{
    let mut bytes = line.as_bytes_vec();
    if bytes.len() == 69 && bytes[68] < 48u8 {
        bytes.set(68, 88u8);
    }
    bytes
}

/// The three-line form: a title line before the two element lines is
/// ignored, so the same element lines reach `sgp4` with or without it and
/// [`Propagator::from_tle`] may return exactly the same results for both.
pub proof fn lemma_title_line_is_ignored(title: Seq<char>, tle: Seq<char>)
    requires
        !title.contains('\n'),
        trim(title).len() > 0,
        non_blank_lines(tle).len() == 2,
    ensures
        element_lines(title.push('\n') + tle) == element_lines(tle),
        forall|name: Option<Seq<char>>, result: Result<Propagator, PropagatorError>|
            #[trigger] tle_outcome(name, title.push('\n') + tle, result) == tle_outcome(
                name,
                tle,
                result,
            ),
{
    lemma_non_blank_after_first_line(title, tle);
}

/// Two element lines with whitespace `pad` before the first, a space and a
/// line feed after it, `pad` and a line feed before the second, and `pad`
/// after it.
pub open spec fn padded_tle(pad: Seq<char>, line1: Seq<char>, line2: Seq<char>) -> Seq<char> {
    pad + line1 + seq![' ', '\n'] + pad + seq!['\n'] + line2 + pad
}

/// Blank lines and whitespace around the element lines change nothing: the
/// padded TLE has the non-blank lines of the bare one, so the same bytes reach
/// `sgp4` and [`Propagator::from_tle`] may return exactly the same results for
/// both.
pub proof fn lemma_blank_padding_is_ignored(pad: Seq<char>, line1: Seq<char>, line2: Seq<char>)
    requires
        all_white_space(pad),
    ensures
        non_blank_lines(padded_tle(pad, line1, line2)) == non_blank_lines(
            line1.push('\n') + line2,
        ),
        forall|name: Option<Seq<char>>, result: Result<Propagator, PropagatorError>|
            #[trigger] tle_outcome(name, padded_tle(pad, line1, line2), result) == tle_outcome(
                name,
                line1.push('\n') + line2,
                result,
            ),
{
    let space = seq![' '];
    let nothing = Seq::<char>::empty();
    assert(all_white_space(space)) by {
        assert forall|i: int| 0 <= i < space.len() implies crate::text::is_white_space(
            #[trigger] space[i],
        ) by {
            assert(space[i] == ' ');
        }
    }
    assert(all_white_space(nothing));
    let first = pad + line1 + space;
    let rest = pad.push('\n') + (line2 + pad);
    assert(pad + line1 + seq![' ', '\n'] + pad + seq!['\n'] + line2 + pad =~= first.push('\n')
        + rest);
    lemma_non_blank_lines_concat(first, rest);
    lemma_white_space_padding_is_ignored(pad, line1, space);
    lemma_non_blank_lines_concat(pad, line2 + pad);
    lemma_white_space_padding_is_ignored(pad, nothing, nothing);
    assert(pad + nothing + nothing == pad);
    lemma_non_blank_lines_of_nothing();
    lemma_white_space_padding_is_ignored(nothing, line2, pad);
    assert(nothing + line2 + pad == line2 + pad);
    lemma_non_blank_lines_concat(line1, line2);
    assert(non_blank_lines(rest) =~~= non_blank_lines(line2));
}

/// An element line whose checksum character is not below `'0'` (in
/// particular a digit), or that is not of full length, reaches `sgp4`
/// exactly as written.
pub proof fn lemma_readable_line_reaches_sgp4_unchanged(line: Seq<u8>)
    requires
        !(line.len() == 69 && line[68] < 48),
    ensures
        sgp4_line(line) == line,
{
}

/// Only a full-length line's checksum character below `'0'` is ever replaced,
/// and by a character that is neither below `'0'` nor a digit: every other
/// byte, and the length, reach `sgp4` as written.
pub proof fn lemma_only_an_unreadable_checksum_is_replaced(line: Seq<u8>)
    ensures
        sgp4_line(line).len() == line.len(),
        forall|i: int| 0 <= i < line.len() && i != 68 ==> #[trigger] sgp4_line(line)[i] == line[i],
        line.len() == 69 && line[68] < 48 ==> sgp4_line(line)[68] > 57,
        line.len() == 69 ==> sgp4_line(line)[68] >= 48,
{
}

/// For a TLE whose element lines have checksum characters that are not below
/// `'0'`, what [`Propagator::from_tle`] may return is decided by the element
/// lines' own UTF-8 bytes: `sgp4`'s verdict on them, its error text for them,
/// and, on success, a propagator built from exactly them under `name`.
pub proof fn lemma_digit_checksums_reach_sgp4_as_written(
    name: Option<Seq<char>>,
    tle: Seq<char>,
    line1: Seq<char>,
    line2: Seq<char>,
    result: Result<Propagator, PropagatorError>,
)
    requires
        element_lines(tle) == Some((line1, line2)),
        !(encode_utf8(line1).len() == 69 && encode_utf8(line1)[68] < 48),
        !(encode_utf8(line2).len() == 69 && encode_utf8(line2)[68] < 48),
        tle_outcome(name, tle, result),
    ensures
        ({
            let bytes1 = encode_utf8(line1);
            let bytes2 = encode_utf8(line2);
            &&& !sgp4_accepts_tle(bytes1, bytes2) ==> (result matches Err(
                PropagatorError::MalformedTle { detail },
            ) && detail@ == sgp4_tle_error_text(bytes1, bytes2))
            &&& sgp4_accepts_tle(bytes1, bytes2) ==> !(result matches Err(
                PropagatorError::MalformedTle { .. },
            ))
            &&& result matches Ok(propagator) ==> (propagator.elements_source() == (bytes1, bytes2)
                && propagator.constants_source() == (bytes1, bytes2)
                && propagator.object_name() == name)
        }),
{
    lemma_readable_line_reaches_sgp4_unchanged(encode_utf8(line1));
    lemma_readable_line_reaches_sgp4_unchanged(encode_utf8(line2));
}

} // verus!
