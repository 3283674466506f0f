//! Lightweight verification metrics.
//!
//! Counters cover outcomes, errors and contained panics. The host owns the
//! instance and decides how it is shared.
use vstd::prelude::*;
use crate::verdict::ValidationState;

verus! {

/// Verification counters. A counter that reaches its maximum starts over.
#[derive(Debug, Clone, Copy, PartialEq, Eq, Structural)]
pub struct Metrics {
    /// Total verify calls completed (any outcome).
    pub verifications: u64,
    /// Results with state `Trusted`.
    pub trusted: u64,
    /// Results with state `Valid` (not trusted).
    pub valid: u64,
    /// Results with state `Invalid`.
    pub invalid: u64,
    /// Assets with no manifest.
    pub no_manifest: u64,
    /// Verify calls that returned an error.
    pub errors: u64,
    /// Contained panics.
    pub panics: u64,
}

/// A point-in-time, plain-data snapshot of [`Metrics`].
#[derive(Debug, Clone, Copy, PartialEq, Eq, Structural)]
pub struct MetricsSnapshot {
    pub verifications: u64,
    pub trusted: u64,
    pub valid: u64,
    pub invalid: u64,
    pub no_manifest: u64,
    pub errors: u64,
    pub panics: u64,
}

/// One more, starting over behind the maximum.
pub open spec fn incremented(n: u64) -> u64 {
    if n == u64::MAX {
        0
    } else {
        (n + 1) as u64
    }
}

impl Metrics {
    /// Nothing counted.
    pub open spec fn zero() -> Metrics {
        Metrics {
            verifications: 0,
            trusted: 0,
            valid: 0,
            invalid: 0,
            no_manifest: 0,
            errors: 0,
            panics: 0,
        }
    }

    /// One more completed verification with the given state.
    pub open spec fn with_state(self, state: ValidationState) -> Metrics {
        let m = Metrics { verifications: incremented(self.verifications), ..self };
        match state {
            ValidationState::Trusted => Metrics { trusted: incremented(self.trusted), ..m },
            ValidationState::Valid => Metrics { valid: incremented(self.valid), ..m },
            ValidationState::Invalid => Metrics { invalid: incremented(self.invalid), ..m },
            ValidationState::Absent => Metrics { no_manifest: incremented(self.no_manifest), ..m },
        }
    }

    /// A fresh zeroed metrics set.
    pub fn new() -> (r: Metrics)
        ensures
            r == Metrics::zero(),
    {
        Metrics {
            verifications: 0,
            trusted: 0,
            valid: 0,
            invalid: 0,
            no_manifest: 0,
            errors: 0,
            panics: 0,
        }
    }

    /// Record a completed verification by its state. No provenance counts
    /// alongside the other no-manifest outcomes.
    pub fn record_state(&mut self, state: ValidationState)
        ensures
            *final(self) == old(self).with_state(state),
    {
        self.verifications = self.verifications.wrapping_add(1);
        match state {
            ValidationState::Trusted => {
                self.trusted = self.trusted.wrapping_add(1);
            },
            ValidationState::Valid => {
                self.valid = self.valid.wrapping_add(1);
            },
            ValidationState::Invalid => {
                self.invalid = self.invalid.wrapping_add(1);
            },
            ValidationState::Absent => {
                self.no_manifest = self.no_manifest.wrapping_add(1);
            },
        }
    }

    /// Record an asset with no manifest.
    pub fn record_no_manifest(&mut self)
        ensures
            *final(self) == (Metrics { no_manifest: incremented(old(self).no_manifest), ..*old(self) }),
    {
        self.no_manifest = self.no_manifest.wrapping_add(1);
    }

    /// Record a verify error.
    pub fn record_error(&mut self)
        ensures
            *final(self) == (Metrics { errors: incremented(old(self).errors), ..*old(self) }),
    {
        self.errors = self.errors.wrapping_add(1);
    }

    /// Record a contained panic.
    pub fn record_panic(&mut self)
        ensures
            *final(self) == (Metrics { panics: incremented(old(self).panics), ..*old(self) }),
    {
        self.panics = self.panics.wrapping_add(1);
    }

    /// Read a snapshot.
    pub fn snapshot(&self) -> (r: MetricsSnapshot)
        ensures
            r == (MetricsSnapshot {
                verifications: self.verifications,
                trusted: self.trusted,
                valid: self.valid,
                invalid: self.invalid,
                no_manifest: self.no_manifest,
                errors: self.errors,
                panics: self.panics,
            }),
    {
        MetricsSnapshot {
            verifications: self.verifications,
            trusted: self.trusted,
            valid: self.valid,
            invalid: self.invalid,
            no_manifest: self.no_manifest,
            errors: self.errors,
            panics: self.panics,
        }
    }
}

impl Default for Metrics {
    fn default() -> (r: Metrics)
        ensures
            r == Metrics::zero(),
    {
        Metrics::new()
    }
}

// ---------------------------------------------------------------------------
// Laws
// ---------------------------------------------------------------------------

/// What the counters come to after a run of completed verifications.
pub open spec fn after_states(m: Metrics, states: Seq<ValidationState>) -> Metrics
    decreases states.len(),
{
    if states.len() == 0 {
        m
    } else {
        after_states(m, states.drop_last()).with_state(states.last())
    }
}

/// From zero, every completed verification is counted once in total and once by
/// its state, as long as the total fits.
pub proof fn every_verification_has_one_state(states: Seq<ValidationState>)
    requires
        states.len() <= u64::MAX,
    ensures
        ({
            let m = after_states(Metrics::zero(), states);
            &&& m.verifications == states.len()
            &&& m.trusted + m.valid + m.invalid + m.no_manifest == m.verifications
            &&& m.errors == 0
            &&& m.panics == 0
        }),
    decreases states.len(),
{
    if states.len() > 0 {
        every_verification_has_one_state(states.drop_last());
    }
}

/// From zero, each counter comes to the number of completed verifications with
/// its own state, as long as the total fits.
pub proof fn each_state_has_its_own_counter(states: Seq<ValidationState>)
    requires
        states.len() <= u64::MAX,
    ensures
        ({
            let m = after_states(Metrics::zero(), states);
            &&& m.trusted == states.filter(
                |s: ValidationState| s == ValidationState::Trusted,
            ).len()
            &&& m.valid == states.filter(|s: ValidationState| s == ValidationState::Valid).len()
            &&& m.invalid == states.filter(
                |s: ValidationState| s == ValidationState::Invalid,
            ).len()
            &&& m.no_manifest == states.filter(
                |s: ValidationState| s == ValidationState::Absent,
            ).len()
        }),
    decreases states.len(),
{
    reveal(Seq::filter);
    every_verification_has_one_state(states);
    if states.len() > 0 {
        every_verification_has_one_state(states.drop_last());
        each_state_has_its_own_counter(states.drop_last());
    }
}

} // verus!
