//! The tracker: a ground station, a satellite's orbital elements and the
//! propagation constants that SGP4 derives from them, held together.

use vstd::prelude::*;

verus! {

/// `sgp4::Elements`: the orbital elements of a satellite, as parsed from a
/// two-line element set. Nothing is said of what a value holds.
#[verifier::external_type_specification]
#[verifier::external_body]
pub struct ExElements(sgp4::Elements);

/// `sgp4::Constants`: what the propagator derives from a set of elements once
/// and uses at every instant. Nothing is said of what a value holds.
#[verifier::external_type_specification]
#[verifier::external_body]
pub struct ExConstants(sgp4::Constants);

/// `sgp4::ElementsError`: why no constants can be derived from a set of
/// elements. Nothing is said of what a value holds.
#[verifier::external_type_specification]
#[verifier::external_body]
pub struct ExElementsError(sgp4::ElementsError);

/// `predict_rs::predict::PredictObserver`: a ground station's name, geodetic
/// position and minimum elevation. Nothing is said of what a value holds.
#[verifier::external_type_specification]
#[verifier::external_body]
pub struct ExPredictObserver(predict_rs::predict::PredictObserver);

/// `predict_rs::orbit::OrbitPredictionError`: why the satellite's state at an
/// instant could not be predicted. Nothing is said of what a value holds.
#[verifier::external_type_specification]
#[verifier::external_body]
pub struct ExOrbitPredictionError(predict_rs::orbit::OrbitPredictionError);

/// `sgp4::Constants::from_elements`: the propagation constants for a set of
/// elements, or the reason why the elements admit none. The contract claims
/// nothing of the result; the call returns for every set of elements.
pub assume_specification[ sgp4::Constants::from_elements ](elements: &sgp4::Elements) -> (r:
    core::result::Result<sgp4::Constants, sgp4::ElementsError>)
;

/// Why the tracker could not be set up, or could not answer.
#[derive(Debug)]
pub enum TrackerError {
    /// The orbital elements admit no propagation constants.
    ElementsError(sgp4::ElementsError),
    /// The propagator has no state for the satellite at the instant asked for.
    OrbitPredictionError(predict_rs::orbit::OrbitPredictionError),
}

/// Predicts where a satellite stands relative to a ground station.
pub struct Tracker {
    observer: predict_rs::predict::PredictObserver,
    elements: sgp4::Elements,
    constants: sgp4::Constants,
}

impl Tracker {
    /// The ground station.
    pub closed spec fn spec_observer(&self) -> predict_rs::predict::PredictObserver {
        self.observer
    }

    /// The satellite's orbital elements.
    pub closed spec fn spec_elements(&self) -> sgp4::Elements {
        self.elements
    }

    /// The propagation constants that go with the elements.
    pub closed spec fn spec_constants(&self) -> sgp4::Constants {
        self.constants
    }

    /// What becomes of a station and a set of elements once the propagator has
    /// said what constants the elements admit: a tracker that holds all three,
    /// or the propagator's refusal.
    pub fn assemble(
        observer: predict_rs::predict::PredictObserver,
        elements: sgp4::Elements,
        constants: Result<sgp4::Constants, sgp4::ElementsError>,
    ) -> (r: Result<Tracker, TrackerError>)
        ensures
            match constants {
                Ok(c) => r is Ok && r->Ok_0.spec_observer() == observer && r->Ok_0.spec_elements()
                    == elements && r->Ok_0.spec_constants() == c,
                Err(e) => r is Err && r->Err_0 == TrackerError::ElementsError(e),
            },
    {
        match constants {
            Ok(constants) => Ok(Tracker { observer, elements, constants }),
            Err(e) => Err(TrackerError::ElementsError(e)),
        }
    }

    /// A tracker for the satellite with the given elements, seen from
    /// `observer`. It fails only where the elements admit no propagation
    /// constants, and then with the propagator's own reason.
    pub fn new(observer: predict_rs::predict::PredictObserver, elements: sgp4::Elements) -> (r:
        Result<Tracker, TrackerError>)
        ensures
            match r {
                Ok(tracker) => tracker.spec_observer() == observer && tracker.spec_elements()
                    == elements,
                Err(e) => e is ElementsError,
            },
    {
        let constants = sgp4::Constants::from_elements(&elements);
        Tracker::assemble(observer, elements, constants)
    }

    /// The ground station.
    pub fn observer(&self) -> (r: &predict_rs::predict::PredictObserver)
        ensures
            *r == self.spec_observer(),
    {
        &self.observer
    }

    /// The satellite's orbital elements.
    pub fn elements(&self) -> (r: &sgp4::Elements)
        ensures
            *r == self.spec_elements(),
    {
        &self.elements
    }

    /// The propagation constants that go with the elements.
    pub fn constants(&self) -> (r: &sgp4::Constants)
        ensures
            *r == self.spec_constants(),
    {
        &self.constants
    }
}

} // verus!
