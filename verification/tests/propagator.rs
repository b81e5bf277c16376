use orbit_lib::propagator::{Propagator, PropagatorError};

const LANDSAT_9_TLE: &str = "1 49260U 21088A   26264.47165275  .00000170  00000-0  47773-4 0  9997\n2 49260  98.2196 333.4388 0001506  93.9087 266.2284 14.57100580265024";

fn malformed_detail(result: Result<Propagator, PropagatorError>) -> String {
    match result {
        Err(PropagatorError::MalformedTle { detail }) => detail,
        Err(PropagatorError::Propagation { detail }) => panic!("propagation error: {detail}"),
        Ok(_) => panic!("expected a malformed TLE"),
    }
}

#[test]
fn accepts_the_three_line_form() {
    let with_title = format!("LANDSAT 9\n{LANDSAT_9_TLE}");
    assert!(Propagator::from_tle(None, &with_title).is_ok());
}

#[test]
fn rejects_a_single_line() {
    assert!(matches!(
        Propagator::from_tle(None, "1 49260U 21088A"),
        Err(PropagatorError::MalformedTle { .. })
    ));
}

#[test]
fn a_malformed_tle_is_an_error_not_a_panic() {
    assert!(Propagator::from_tle(Some("Landsat 9".to_owned()), "not a tle").is_err());
}

#[test]
fn accepts_the_two_line_form() {
    assert!(Propagator::from_tle(Some("Landsat 9".to_owned()), LANDSAT_9_TLE).is_ok());
}

#[test]
fn ignores_blank_lines_and_surrounding_whitespace() {
    let padded = format!(
        "\n  LANDSAT 9  \r\n\n\t{}  \r\n   \n{}\r\n\n",
        &LANDSAT_9_TLE[..69],
        &LANDSAT_9_TLE[70..]
    );
    assert!(Propagator::from_tle(None, &padded).is_ok());
}

#[test]
fn reports_how_many_element_lines_it_found() {
    assert_eq!(
        malformed_detail(Propagator::from_tle(None, "")),
        "expected 2 element lines, found 0"
    );
    assert_eq!(
        malformed_detail(Propagator::from_tle(None, "a\nb\nc\nd")),
        "expected 2 element lines, found 4"
    );
    let twelve = "x\n".repeat(12);
    assert_eq!(
        malformed_detail(Propagator::from_tle(None, &twelve)),
        "expected 2 element lines, found 12"
    );
}

#[test]
fn passes_on_what_sgp4_says_of_rejected_lines() {
    let detail = malformed_detail(Propagator::from_tle(None, "1 short\n2 short"));
    assert!(detail.starts_with("TLE parse error"), "detail was {detail}");
}

#[test]
fn rejects_a_checksum_character_below_zero_as_a_bad_checksum() {
    let line1 = format!("{}+", &LANDSAT_9_TLE[..68]);
    let tle = format!("{line1}\n{}", &LANDSAT_9_TLE[70..]);
    assert_eq!(
        malformed_detail(Propagator::from_tle(None, &tle)),
        "TLE parse error: Bad line checksum on TLE line 1 between characters 68 and 69"
    );
    let line2 = format!("{}/", &LANDSAT_9_TLE[70..138]);
    let tle = format!("{}\n{line2}", &LANDSAT_9_TLE[..69]);
    assert_eq!(
        malformed_detail(Propagator::from_tle(None, &tle)),
        "TLE parse error: Bad line checksum on TLE line 2 between characters 68 and 69"
    );
}

#[test]
fn an_earlier_fault_is_reported_before_a_checksum_below_zero() {
    let line1 = format!("9{}+", &LANDSAT_9_TLE[1..68]);
    let tle = format!("{line1}\n{}", &LANDSAT_9_TLE[70..]);
    assert_eq!(
        malformed_detail(Propagator::from_tle(None, &tle)),
        "TLE parse error: Bad first character on TLE line 1 between characters 0 and 1"
    );
}

#[test]
fn a_bad_checksum_digit_is_sgp4_s_error() {
    let line1 = format!("{}0", &LANDSAT_9_TLE[..68]);
    let tle = format!("{line1}\n{}", &LANDSAT_9_TLE[70..]);
    let detail = malformed_detail(Propagator::from_tle(None, &tle));
    assert!(detail.contains("checksum"), "detail was {detail}");
}

#[test]
fn describes_propagator_errors() {
    let malformed = PropagatorError::MalformedTle { detail: "bad".to_owned() };
    assert_eq!(malformed.message(), "malformed TLE: bad");
    let propagation = PropagatorError::Propagation { detail: "diverged".to_owned() };
    assert_eq!(propagation.message(), "propagation failed: diverged");
}

#[test]
fn padding_and_a_title_give_the_same_outcome_as_the_bare_lines() {
    let line1 = &LANDSAT_9_TLE[..69];
    let line2 = &LANDSAT_9_TLE[70..];
    let pad = " \t\n ";
    let padded = format!("{pad}{line1} \n{pad}\n{line2}{pad}");
    let titled = format!("LANDSAT 9\n{line1}\n{line2}");
    assert!(Propagator::from_tle(None, &padded).is_ok());
    assert!(Propagator::from_tle(None, &titled).is_ok());
    let bad = format!("{pad}1 short \n{pad}\n2 short{pad}");
    assert_eq!(
        malformed_detail(Propagator::from_tle(None, &bad)),
        malformed_detail(Propagator::from_tle(None, "1 short\n2 short"))
    );
}
