use hashbench::clock::measurement_from;
use hashbench::error::BenchError;

#[test]
fn elapsed_time_of_a_success_is_the_measurement() {
    assert_eq!(measurement_from(true, Some(0)), Ok(0));
    assert_eq!(measurement_from(true, Some(42)), Ok(42));
    assert_eq!(measurement_from(true, Some(u64::MAX as u128)), Ok(u64::MAX));
}

#[test]
fn failed_invocation_is_never_a_measurement() {
    assert_eq!(measurement_from(false, Some(42)), Err(BenchError::PrimitiveFailure));
    assert_eq!(measurement_from(false, Some(0)), Err(BenchError::PrimitiveFailure));
    assert_eq!(measurement_from(false, None), Err(BenchError::PrimitiveFailure));
}

#[test]
fn clock_running_backwards_is_a_clock_failure() {
    assert_eq!(measurement_from(true, None), Err(BenchError::ClockFailure));
}

#[test]
fn elapsed_time_beyond_64_bits_is_a_clock_failure() {
    assert_eq!(measurement_from(true, Some(u64::MAX as u128 + 1)), Err(BenchError::ClockFailure));
    assert_eq!(measurement_from(true, Some(u128::MAX)), Err(BenchError::ClockFailure));
}
