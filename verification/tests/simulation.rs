use orbit_lib::propagator::PropagatorError;
use orbit_lib::simulation::SimulationError;

#[test]
fn describes_an_invalid_window() {
    let error = SimulationError::InvalidWindow { detail: "step must be positive, got 0".to_owned() };
    assert_eq!(error.message(), "invalid window: step must be positive, got 0");
}

#[test]
fn names_the_satellite_that_failed() {
    let error = SimulationError::Satellite {
        id: "landsat9".to_owned(),
        source: PropagatorError::MalformedTle { detail: "expected 2 element lines, found 1".to_owned() },
    };
    assert_eq!(
        error.message(),
        "satellite landsat9: malformed TLE: expected 2 element lines, found 1"
    );
}

#[test]
fn collects_every_satellite_in_order() {
    let satellites = vec![("a".to_owned(), 1), ("b".to_owned(), 2), ("c".to_owned(), 3)];
    let results = orbit_lib::simulation::simulate_each(&satellites, |n: &i32| Ok(n * 10));
    assert_eq!(results.unwrap(), vec![10, 20, 30]);
}

#[test]
fn stops_at_the_first_failing_satellite() {
    let satellites = vec![("a".to_owned(), 1), ("b".to_owned(), 2), ("c".to_owned(), 3)];
    let calls = std::cell::Cell::new(0);
    let result = orbit_lib::simulation::simulate_each(&satellites, |n: &i32| {
        calls.set(calls.get() + 1);
        if *n >= 2 {
            Err(PropagatorError::Propagation { detail: format!("diverged {n}") })
        } else {
            Ok(*n)
        }
    });
    assert_eq!(calls.get(), 2);
    assert_eq!(
        result.unwrap_err().message(),
        "satellite b: propagation failed: diverged 2"
    );
}
