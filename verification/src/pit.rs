//! Publication semantics: time precision, availability evidence and formal
//! point-in-time eligibility.
//!
//! Every publication instant of this source is inferred, so the triple is fixed
//! at `Date` + `Inferred` + `NotEligible`; a date is never dressed up as an
//! instant and nothing is silently promoted.

use vstd::prelude::*;

verus! {

/// Time precision: whether the source gives only a date or a precise instant.
#[non_exhaustive]
#[derive(Debug, Clone, Copy, PartialEq, Eq, Hash, Structural)]
pub enum TimePrecision {
    /// Only a date.
    Date,
    /// A precise instant.
    Instant,
}

/// Availability evidence layer: official field > release calendar > inference.
#[non_exhaustive]
#[derive(Debug, Clone, Copy, PartialEq, Eq, Hash, Structural)]
pub enum AvailabilityEvidence {
    /// An official field.
    Official,
    /// A release calendar.
    Calendar,
    /// Inferred.
    Inferred,
}

/// Formal point-in-time eligibility.
#[non_exhaustive]
#[derive(Debug, Clone, Copy, PartialEq, Eq, Hash, Structural)]
pub enum PitEligibility {
    /// May enter the formal point-in-time store.
    Formal,
    /// May not enter the formal point-in-time store.
    NotEligible,
}

/// The publication semantics triple of this source.
pub open spec fn publication_triple() -> (TimePrecision, AvailabilityEvidence, PitEligibility) {
    (TimePrecision::Date, AvailabilityEvidence::Inferred, PitEligibility::NotEligible)
}

/// The publication semantics triple; always `(Date, Inferred, NotEligible)`.
pub fn eastmoney_publication_semantics() -> (r: (TimePrecision, AvailabilityEvidence, PitEligibility))
    ensures
        r == publication_triple(),
        r == (TimePrecision::Date, AvailabilityEvidence::Inferred, PitEligibility::NotEligible),
{
    (TimePrecision::Date, AvailabilityEvidence::Inferred, PitEligibility::NotEligible)
}

/// Whether the source is eligible for the formal point-in-time store; always `false`.
pub fn is_formal_pit_eligible() -> (r: bool)
    ensures
        r == (publication_triple().2 == PitEligibility::Formal),
        !r,
{
    false
}

} // verus!
