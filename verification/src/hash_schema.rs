//! Historical projections of the deterministic hash stream: which gated
//! layouts a hash schema includes.
use vstd::prelude::*;

verus! {

/// A hash schema: the current layout, or a historical projection of it.
#[derive(Clone, Copy, Debug, PartialEq, Eq)]
pub enum HashSchema {
    Current,
    /// Bounded diagnostic: the old Building slot fold, before power state.
    BeforeBuildingPowerIntegration,
    /// Every feature first folded before this schema number.
    Before(u16),
    /// The `Before` composition with the raw infantry owner identities
    /// excluded from the raw occupation fold.
    BeforeWithoutRawInfantryOwners(u16),
}

/// The first hash schema containing each gated layout.
#[derive(Clone, Copy, Debug, PartialEq, Eq)]
pub enum HashFeature {
    Lifecycle,
    Mission,
    MasterFrame,
    EntityAnimation,
    /// Reserved historical positional bit; the overlay state no longer exists.
    RetiredBuildingAnimOverlays,
    TerminalScore,
    PlayfieldAuthority,
    TechnoPlayfield,
    SensorDeposit,
    RealCellBridgeFlags,
    BaseDefenseResponse,
    TechnoConstructor,
    SparkDummyLevelSlope,
    AlternateBaseCenter,
    NavalBuildConst,
    BasePlan,
    BasePlanCenter,
    HouseDeployLatches,
    HouseUpdateActivation,
    CrateAuthority,
    WallRuntime,
    DisguiseDetect,
    HouseHarvesterNoOre,
    HouseEva,
    CreditIncome,
    InfantryTerminal,
    SustainedGapSight,
    GapOperational,
    BridgePublication,
    CellMembership,
    FootPathRuntime,
    BridgeLocomotorAndDummy,
    TrackAuthority,
    EstimatedHealth,
    AircraftDockState,
    AnimationAuthority,
    /// Removes folds instead of adding them: earlier schemas fold the
    /// constants a native-context simulation always held there.
    RetiredTiberiumNodeState,
}

impl HashFeature {
    /// The first schema number whose layout contains this feature.
    pub open spec fn first_schema_spec(self) -> u16 {
        match self {
            HashFeature::Lifecycle => 28,
            HashFeature::Mission => 29,
            HashFeature::MasterFrame => 43,
            HashFeature::EntityAnimation => 44,
            HashFeature::RetiredBuildingAnimOverlays => 45,
            HashFeature::TerminalScore => 46,
            HashFeature::PlayfieldAuthority => 47,
            HashFeature::TechnoPlayfield => 87,
            HashFeature::SensorDeposit => 88,
            HashFeature::RealCellBridgeFlags => 90,
            HashFeature::BaseDefenseResponse => 97,
            HashFeature::TechnoConstructor => 104,
            HashFeature::SparkDummyLevelSlope => 107,
            HashFeature::AlternateBaseCenter => 108,
            HashFeature::NavalBuildConst => 109,
            HashFeature::BasePlan => 110,
            HashFeature::BasePlanCenter => 111,
            HashFeature::HouseDeployLatches => 112,
            HashFeature::HouseUpdateActivation => 113,
            HashFeature::CrateAuthority => 114,
            HashFeature::WallRuntime => 115,
            HashFeature::DisguiseDetect => 117,
            HashFeature::HouseHarvesterNoOre => 132,
            HashFeature::HouseEva => 133,
            HashFeature::CreditIncome => 135,
            HashFeature::InfantryTerminal => 136,
            HashFeature::SustainedGapSight => 142,
            HashFeature::GapOperational => 144,
            HashFeature::BridgePublication => 145,
            HashFeature::CellMembership => 159,
            HashFeature::FootPathRuntime => 160,
            HashFeature::BridgeLocomotorAndDummy => 161,
            HashFeature::TrackAuthority => 167,
            HashFeature::EstimatedHealth => 168,
            HashFeature::AircraftDockState => 170,
            HashFeature::AnimationAuthority => 171,
            HashFeature::RetiredTiberiumNodeState => 174,
        }
    }

    /// The first schema number whose layout contains this feature.
    pub fn first_schema(self) -> (version: u16)
        ensures
            version == self.first_schema_spec(),
    {
        match self {
            HashFeature::Lifecycle => 28,
            HashFeature::Mission => 29,
            HashFeature::MasterFrame => 43,
            HashFeature::EntityAnimation => 44,
            HashFeature::RetiredBuildingAnimOverlays => 45,
            HashFeature::TerminalScore => 46,
            HashFeature::PlayfieldAuthority => 47,
            HashFeature::TechnoPlayfield => 87,
            HashFeature::SensorDeposit => 88,
            HashFeature::RealCellBridgeFlags => 90,
            HashFeature::BaseDefenseResponse => 97,
            HashFeature::TechnoConstructor => 104,
            HashFeature::SparkDummyLevelSlope => 107,
            HashFeature::AlternateBaseCenter => 108,
            HashFeature::NavalBuildConst => 109,
            HashFeature::BasePlan => 110,
            HashFeature::BasePlanCenter => 111,
            HashFeature::HouseDeployLatches => 112,
            HashFeature::HouseUpdateActivation => 113,
            HashFeature::CrateAuthority => 114,
            HashFeature::WallRuntime => 115,
            HashFeature::DisguiseDetect => 117,
            HashFeature::HouseHarvesterNoOre => 132,
            HashFeature::HouseEva => 133,
            HashFeature::CreditIncome => 135,
            HashFeature::InfantryTerminal => 136,
            HashFeature::SustainedGapSight => 142,
            HashFeature::GapOperational => 144,
            HashFeature::BridgePublication => 145,
            HashFeature::CellMembership => 159,
            HashFeature::FootPathRuntime => 160,
            HashFeature::BridgeLocomotorAndDummy => 161,
            HashFeature::TrackAuthority => 167,
            HashFeature::EstimatedHealth => 168,
            HashFeature::AircraftDockState => 170,
            HashFeature::AnimationAuthority => 171,
            HashFeature::RetiredTiberiumNodeState => 174,
        }
    }
}

impl HashSchema {
    /// Whether this schema's hash stream folds `feature`.
    pub open spec fn includes_spec(self, feature: HashFeature) -> bool {
        match self {
            HashSchema::Current => true,
            HashSchema::BeforeBuildingPowerIntegration => !(feature
                == HashFeature::AircraftDockState || feature == HashFeature::AnimationAuthority
                || feature == HashFeature::RetiredTiberiumNodeState),
            HashSchema::Before(version) => feature.first_schema_spec() < version,
            HashSchema::BeforeWithoutRawInfantryOwners(version) => feature.first_schema_spec()
                < version,
        }
    }

    /// Whether this schema's hash stream folds `feature`.
    pub fn includes(self, feature: HashFeature) -> (included: bool)
        ensures
            included == self.includes_spec(feature),
    {
        match self {
            HashSchema::Current => true,
            HashSchema::BeforeBuildingPowerIntegration => !matches!(
                feature,
                HashFeature::AircraftDockState | HashFeature::AnimationAuthority
                    | HashFeature::RetiredTiberiumNodeState
            ),
            HashSchema::Before(version) => feature.first_schema() < version,
            HashSchema::BeforeWithoutRawInfantryOwners(version) => feature.first_schema()
                < version,
        }
    }

    /// Whether the Building slot fold includes its power state.
    pub fn includes_building_power_integration(self) -> (included: bool)
        ensures
            included == !(self == HashSchema::BeforeBuildingPowerIntegration),
    {
        !matches!(self, HashSchema::BeforeBuildingPowerIntegration)
    }

    /// Whether the raw occupation fold includes the raw infantry owners.
    pub fn includes_raw_infantry_owners(self) -> (included: bool)
        ensures
            included == !(self is BeforeWithoutRawInfantryOwners),
    {
        match self {
            HashSchema::Current => true,
            HashSchema::BeforeBuildingPowerIntegration => true,
            HashSchema::Before(_) => true,
            HashSchema::BeforeWithoutRawInfantryOwners(_) => false,
        }
    }
}

/// The current schema folds every gated layout.
pub proof fn law_current_includes_every_feature(feature: HashFeature)
    ensures
        HashSchema::Current.includes_spec(feature),
{
}

/// A historical projection keeps every feature of an older one: folding a
/// feature before schema `older` implies folding it before any later schema.
pub proof fn law_before_is_monotone(older: u16, newer: u16, feature: HashFeature)
    requires
        older <= newer,
        HashSchema::Before(older).includes_spec(feature),
    ensures
        HashSchema::Before(newer).includes_spec(feature),
{
}

/// Excluding the raw infantry owners changes no feature gate: both
/// projections of one schema number fold the same features.
pub proof fn law_owner_exclusion_keeps_feature_gates(version: u16, feature: HashFeature)
    ensures
        HashSchema::Before(version).includes_spec(feature)
            == HashSchema::BeforeWithoutRawInfantryOwners(version).includes_spec(feature),
{
}

} // verus!
