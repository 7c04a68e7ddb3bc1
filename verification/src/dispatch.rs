//! The decisions around a multi-scalar multiplication: which backend runs it,
//! whether the inputs have the shape that the backend asks for, and what a
//! status code of the accelerator means.
//!
//! The decisions take plain values and give plain values back, so that the
//! caller that owns the accelerator's handle can act on them.

use crate::error::Error;
use vstd::prelude::*;

verus! {

/// The number of points from which on the accelerator pays for its overhead.
pub const ACCELERATOR_THRESHOLD: usize = 65536;

/// The backend that a computation runs on.
#[derive(Clone, Copy, Debug, PartialEq, Eq, Structural)]
pub enum Backend {
    /// The local implementation, which is always there.
    Cpu,
    /// The accelerator.
    Accelerator,
}

/// What the caller allows: whether the accelerator may be used at all, and
/// from how many points on.
#[derive(Clone, Copy, Debug, PartialEq, Eq, Structural)]
pub struct DispatchConfig {
    pub accelerator_enabled: bool,
    pub threshold: usize,
}

impl DispatchConfig {
    /// The accelerator is used from [`ACCELERATOR_THRESHOLD`] points on.
    pub fn new() -> (config: Self)
        ensures
            config.accelerator_enabled,
            config.threshold == ACCELERATOR_THRESHOLD,
    {
        DispatchConfig { accelerator_enabled: true, threshold: ACCELERATOR_THRESHOLD }
    }

    /// The accelerator is never used.
    pub fn cpu_only() -> (config: Self)
        ensures
            !config.accelerator_enabled,
            config.threshold == ACCELERATOR_THRESHOLD,
    {
        DispatchConfig { accelerator_enabled: false, threshold: ACCELERATOR_THRESHOLD }
    }

    /// The accelerator may be used and is there.
    pub open spec fn accelerator_usable(&self, available: bool) -> bool {
        self.accelerator_enabled && available
    }

    /// A computation on `npoints` points goes to the accelerator.
    pub open spec fn delegates(&self, available: bool, npoints: usize) -> bool {
        self.accelerator_usable(available) && npoints >= self.threshold
    }

    /// The backend for a computation on `npoints` points: the accelerator
    /// where it may be used, is there and the problem is large enough, and the
    /// local implementation otherwise.
    pub fn select_backend(&self, available: bool, npoints: usize) -> (backend: Backend)
        ensures
            backend == if self.delegates(available, npoints) {
                Backend::Accelerator
            } else {
                Backend::Cpu
            },
    {
        if self.accelerator_enabled && available && npoints >= self.threshold {
            Backend::Accelerator
        } else {
            Backend::Cpu
        }
    }

    /// The backend for a one-shot computation, once the lengths of the two
    /// inputs are found to agree. A sum of no terms needs no backend: it is
    /// the point at infinity.
    pub fn plan_compute(&self, available: bool, npoints: usize, nscalars: usize) -> (r: Result<
        Option<Backend>,
        Error,
    >)
        ensures
            npoints != nscalars ==> r == Err::<Option<Backend>, Error>(Error::ShapeMismatch),
            npoints == nscalars && npoints == 0 ==> r == Ok::<Option<Backend>, Error>(None),
            npoints == nscalars && npoints > 0 ==> r == Ok::<Option<Backend>, Error>(
                Some(
                    if self.delegates(available, npoints) {
                        Backend::Accelerator
                    } else {
                        Backend::Cpu
                    },
                ),
            ),
    {
        if npoints != nscalars {
            return Err(Error::ShapeMismatch);
        }
        if npoints == 0 {
            return Ok(None);
        }
        Ok(Some(self.select_backend(available, npoints)))
    }
}

/// What a status of the accelerator means: zero is success, and every other
/// code is a failure that carries the code and the accelerator's message.
pub fn check_status(code: i32, message: String) -> (r: Result<(), Error>)
    ensures
        code == 0 ==> r is Ok,
        code != 0 ==> r == Err::<(), Error>(Error::AcceleratorFailure { code, message }),
{
    if code == 0 {
        Ok(())
    } else {
        Err(Error::AcceleratorFailure { code, message })
    }
}

/// The library's record of a set of points that was handed to the accelerator.
///
/// The record cannot be copied, and [`release`](MsmContext::release) takes it
/// by value: a context is released at most once, and not used afterwards.
#[derive(Debug)]
pub struct MsmContext {
    npoints: usize,
}

impl MsmContext {
    /// The number of points that the context was made for.
    pub closed spec fn size(&self) -> usize {
        self.npoints
    }

    /// Whether a context for `npoints` of `points_len` points can be made.
    ///
    /// The accelerator must be usable, `npoints` must be the number of points
    /// that are there, and enough for the accelerator.
    pub fn init(config: &DispatchConfig, available: bool, points_len: usize, npoints: usize) -> (r:
        Result<Self, Error>)
        ensures
            !config.accelerator_usable(available) ==> r == Err::<Self, Error>(
                Error::InitializationFailed,
            ),
            config.accelerator_usable(available) && npoints != points_len ==> r == Err::<
                Self,
                Error,
            >(Error::ShapeMismatch),
            config.accelerator_usable(available) && npoints == points_len && npoints
                < config.threshold ==> r == Err::<Self, Error>(Error::InitializationFailed),
            config.delegates(available, npoints) && npoints == points_len ==> (r matches Ok(context)
                && context.size() == npoints),
    {
        if !(config.accelerator_enabled && available) {
            return Err(Error::InitializationFailed);
        }
        if npoints != points_len {
            return Err(Error::ShapeMismatch);
        }
        if npoints < config.threshold {
            return Err(Error::InitializationFailed);
        }
        Ok(MsmContext { npoints })
    }

    /// The number of points that the context was made for.
    pub fn npoints(&self) -> (n: usize)
        ensures
            n == self.size(),
    {
        self.npoints
    }

    /// Whether the context can be used with `scalars_len` scalars.
    ///
    /// The accelerator must be usable, and `npoints` must be both the number
    /// of scalars and the number of points of the context.
    ///
    /// The caller hands the accelerator a second number with the scalars, the
    /// count of leading scalars that are not trivial. It is a hint that lets
    /// the accelerator skip the rest, and it is not checked: a hint smaller
    /// than the true count gives a wrong sum, not a slow one.
    pub fn with(&self, config: &DispatchConfig, available: bool, npoints: usize, scalars_len: usize) -> (r:
        Result<(), Error>)
        ensures
            !config.accelerator_usable(available) ==> r == Err::<(), Error>(
                Error::InitializationFailed,
            ),
            config.accelerator_usable(available) && (npoints != scalars_len || npoints
                != self.size()) ==> r == Err::<(), Error>(Error::ShapeMismatch),
            config.accelerator_usable(available) && npoints == scalars_len && npoints
                == self.size() ==> r is Ok,
    {
        if !(config.accelerator_enabled && available) {
            return Err(Error::InitializationFailed);
        }
        if npoints != scalars_len || npoints != self.npoints {
            return Err(Error::ShapeMismatch);
        }
        Ok(())
    }

    /// Ends the life of the context and says how many points it stood for.
    pub fn release(self) -> (n: usize)
        ensures
            n == self.size(),
    {
        self.npoints
    }
}

} // verus!
