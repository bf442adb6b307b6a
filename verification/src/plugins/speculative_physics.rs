//! Hidden mechanics beyond known physics, and what a failed black hole
//! traversal tells the player.
use vstd::prelude::*;

verus! {

/// Unique identifier for hidden mechanics
#[derive(Clone, Copy, Debug, PartialEq, Eq, Hash, Structural)]
pub enum HiddenMechanicId {
    // Tier 5: Relativistic Effects
    TimeDilationMastery,
    LengthContraction,
    MassEnergyEquivalence,
    // Tier 6: Quantum Mechanics
    QuantumTunneling,
    QuantumEntanglement,
    WaveFunctionCollapse,
    // Tier 7: Black Hole Physics
    EventHorizonSurvival,
    HawkingRadiation,
    BlackHoleThermodynamics,
    // Tier 8: Exotic Matter
    NegativeEnergy,
    ExoticMatterSynthesis,
    WarpBubbleFormation,
    // Tier 9: Wormholes
    WormholeStabilization,
    TraversableWormhole,
    WormholeConstruction,
    // Tier 10+: Ultimate Secrets
    ClosedTimelikeCurves,
    UniverseConstantManipulation,
    MultiverseAwareness,
    RealityEditing,
}

/// Path through the ergosphere (required for traversal)
#[derive(Clone, Copy, Debug, PartialEq, Eq, Structural)]
pub enum ErgospherePath {
    /// Co-rotating with black hole spin (most stable)
    ProgradeEquatorial,
    /// Counter-rotating (extremely dangerous)
    RetrogradeEquatorial,
    /// Polar approach (near spin axis)
    PolarApproach,
}

impl Default for ErgospherePath {
    fn default() -> (r: Self)
        ensures
            r == ErgospherePath::ProgradeEquatorial,
    {
        ErgospherePath::ProgradeEquatorial
    }
}

/// Reasons a traversal can fail
#[derive(Clone, Copy, Debug, PartialEq, Eq, Structural)]
pub enum TraversalFailure {
    VelocityTooLow,
    VelocityTooHigh,
    AngleTooWide,
    InsufficientSpin,
    AccelerationExceeded,
    SpaghettificationFatal,
    ErgospherePerturbation,
}

/// Result of a black hole traversal attempt
#[derive(Clone, Copy, Debug, PartialEq, Eq, Structural)]
pub enum TraversalResult {
    Success { destination_seed: u64 },
    Failed(TraversalFailure),
}

impl TraversalFailure {
    /// Get a hint message for failed attempts (without revealing solution)
    pub fn hint_message(&self) -> (r: &'static str)
        ensures
            r@ == match *self {
                TraversalFailure::VelocityTooLow => "The gravitational pull was too strong to escape."@,
                TraversalFailure::VelocityTooHigh => "The extreme velocity caused catastrophic tidal stresses."@,
                TraversalFailure::AngleTooWide => "Something about the approach angle felt wrong..."@,
                TraversalFailure::InsufficientSpin => "The black hole's rotation wasn't significant enough."@,
                TraversalFailure::AccelerationExceeded => "The acceleration exceeded survivable limits."@,
                TraversalFailure::SpaghettificationFatal => "Tidal forces exceeded structural integrity."@,
                TraversalFailure::ErgospherePerturbation => "Chaotic forces in the ergosphere were uncontrollable."@,
            },
    {
        match self {
            Self::VelocityTooLow => "The gravitational pull was too strong to escape.",
            Self::VelocityTooHigh => "The extreme velocity caused catastrophic tidal stresses.",
            Self::AngleTooWide => "Something about the approach angle felt wrong...",
            Self::InsufficientSpin => "The black hole's rotation wasn't significant enough.",
            Self::AccelerationExceeded => "The acceleration exceeded survivable limits.",
            Self::SpaghettificationFatal => "Tidal forces exceeded structural integrity.",
            Self::ErgospherePerturbation => "Chaotic forces in the ergosphere were uncontrollable.",
        }
    }
}

} // verus!
