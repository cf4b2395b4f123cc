//! Trusted access to the wall clock and to the allocation-accounting
//! instrumentation. Contracts here are believed, not proved; each states no
//! more than the relied-upon function's source and documentation show, and
//! nothing is promised of the measured numbers themselves — they depend on
//! the machine, the allocator and the moment.

use vstd::prelude::*;

verus! {

/// `std::time::Instant`, declared so that verified code can hold a reading
/// of the monotonic clock.
#[verifier::external_type_specification]
#[verifier::external_body]
pub struct ExInstant(std::time::Instant);

/// Relies on `std::time::Instant::now`: an opaque reading of the monotonic
/// clock. Nothing can be promised of it.
pub assume_specification[ std::time::Instant::now ]() -> std::time::Instant;

/// Relies on `std::time::Instant::elapsed`: the time since the reading, as
/// an opaque `Duration`. Nothing can be promised of it.
pub assume_specification[ std::time::Instant::elapsed ](start: &std::time::Instant) -> core::time::Duration;

/// Relies on `core::time::Duration::as_micros`: the duration as a whole
/// number of microseconds. The duration is opaque, so no more can be said.
pub assume_specification[ core::time::Duration::as_micros ](d: &core::time::Duration) -> u128;

/// Relies on `allocation_counter::measure`: runs a closure with an
/// allocation-accounting scope attached to the current thread and reports,
/// for that scope, `bytes_max` (the highest number of heap bytes held at one
/// point) and `bytes_current` (the net bytes still allocated when the scope
/// ended, negative if the closure freed more than it allocated). The closure
/// here invokes the strategy exactly once on `input` and discards the result
/// before the scope ends, so the strategy's returned buffer counts toward
/// the residual figure but cannot linger into a later trial. The numbers
/// depend on the allocator and the environment, so nothing is promised of
/// them. The `requires` demands the strategy be callable on `input`, so the
/// invocation here stays within the precondition the strategy was verified
/// under; `measure` itself only panics when such scopes are nested deeper
/// than its supported depth, and this crate never nests them.
#[verifier::external_body]
pub fn measure_strategy<F: Fn(&str) -> String>(extractor: &F, input: &str) -> (r: (u64, i64))
    requires
        call_requires(*extractor, (input,)),
{
    let info = allocation_counter::measure(|| {
        let output = std::hint::black_box(extractor(input));
        drop(output);
    });
    (info.bytes_max, info.bytes_current)
}

} // verus!
