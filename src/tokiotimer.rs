//! Timers on the tokio runtime.

use std::pin::Pin;
use std::time::Instant;
use vstd::prelude::*;

verus! {

#[verifier::external_type_specification]
#[verifier::external_body]
pub struct ExSleep(tokio::time::Sleep);

#[verifier::external_type_specification]
#[verifier::external_body]
pub struct ExInstant(Instant);

#[verifier::external_type_specification]
#[verifier::external_body]
#[verifier::reject_recursive_types(P)]
pub struct ExPin<P>(Pin<P>);

/// A timer that sleeps on the tokio runtime.
#[derive(Clone, Copy, Debug)]
pub struct TokioTimer;

/// A tokio sleep, pinned so that it can be reset where it stands.
pub struct TokioSleep {
    pub inner: Pin<Box<tokio::time::Sleep>>,
}

/// Relies on `tokio::time::Sleep::reset`: the sleep now ends at `deadline`,
/// whether or not it had already ended.
#[verifier::external_body]
fn reset_sleep(sleep: &mut Pin<Box<tokio::time::Sleep>>, deadline: Instant) {
    sleep.as_mut().reset(deadline.into())
}

impl TokioSleep {
    /// Makes the sleep end at `deadline`.
    pub fn reset(&mut self, deadline: Instant) {
        reset_sleep(&mut self.inner, deadline)
    }
}

} // verus!
