use sim_world::hash_schema::{HashFeature, HashSchema};

#[test]
fn detached_track_absence_projection_ends_at_schema167() {
    assert!(!HashSchema::Before(167).includes(HashFeature::TrackAuthority));
    assert!(!HashSchema::BeforeWithoutRawInfantryOwners(161).includes(HashFeature::TrackAuthority));
    assert!(HashSchema::Before(168).includes(HashFeature::TrackAuthority));
    assert!(HashSchema::Current.includes(HashFeature::TrackAuthority));
}

#[test]
fn retired_tiberium_fold_ends_at_schema174() {
    let feature = HashFeature::RetiredTiberiumNodeState;
    assert!(!HashSchema::Before(174).includes(feature));
    assert!(!HashSchema::BeforeBuildingPowerIntegration.includes(feature));
    assert!(HashSchema::Before(175).includes(feature));
    assert!(HashSchema::Current.includes(feature));
}

#[test]
fn historical_policies_preserve_original_positional_masks() {
    // Bit positions keep the parameter order; expected masks are
    // the old call values, independent of the version predicate.
    let features = [
        HashFeature::Lifecycle,
        HashFeature::Mission,
        HashFeature::MasterFrame,
        HashFeature::EntityAnimation,
        HashFeature::RetiredBuildingAnimOverlays,
        HashFeature::TerminalScore,
        HashFeature::PlayfieldAuthority,
        HashFeature::TechnoPlayfield,
        HashFeature::SensorDeposit,
        HashFeature::RealCellBridgeFlags,
        HashFeature::BaseDefenseResponse,
        HashFeature::TechnoConstructor,
        HashFeature::SparkDummyLevelSlope,
        HashFeature::AlternateBaseCenter,
        HashFeature::NavalBuildConst,
        HashFeature::BasePlan,
        HashFeature::BasePlanCenter,
        HashFeature::HouseDeployLatches,
        HashFeature::HouseUpdateActivation,
        HashFeature::CrateAuthority,
        HashFeature::WallRuntime,
        HashFeature::DisguiseDetect,
        HashFeature::HouseHarvesterNoOre,
        HashFeature::HouseEva,
        HashFeature::CreditIncome,
    ];
    let cases = [
        ("state_hash", HashSchema::Current, 0x01ffffffu32),
        ("state_hash_without_mission_v29", HashSchema::Before(29), 0x00000001u32),
        ("state_hash_before_lifecycle_v28_and_mission_v29", HashSchema::Before(28), 0x00000000u32),
        ("state_hash_without_spark_dummy_level_slope_v107", HashSchema::Before(107), 0x00000fffu32),
        ("state_hash_without_naval_build_const_v109", HashSchema::Before(109), 0x00003fffu32),
        ("state_hash_without_base_plan_v110", HashSchema::Before(110), 0x00007fffu32),
        ("state_hash_without_base_plan_center_v111", HashSchema::Before(111), 0x0000ffffu32),
        ("state_hash_without_house_deploy_latches_v112", HashSchema::Before(112), 0x0001ffffu32),
        ("state_hash_without_house_update_activation_v113", HashSchema::Before(113), 0x0003ffffu32),
        ("state_hash_without_crate_authority_v114", HashSchema::Before(114), 0x0007ffffu32),
        ("state_hash_without_disguise_detect_v117", HashSchema::Before(117), 0x001fffffu32),
        ("state_hash_without_house_harvester_no_ore_v132", HashSchema::Before(132), 0x003fffffu32),
        ("state_hash_without_house_eva_v133", HashSchema::Before(133), 0x007fffffu32),
        ("state_hash_without_credit_income_v135", HashSchema::Before(135), 0x00ffffffu32),
        ("state_hash_without_wall_runtime_v115", HashSchema::Before(115), 0x000fffffu32),
    ];
    for (name, schema, expected) in cases {
        let actual = features
            .iter()
            .enumerate()
            .fold(0u32, |mask, (bit, &feature)| mask | (u32::from(schema.includes(feature)) << bit));
        assert_eq!(actual, expected, "{name}");
    }
}

#[test]
fn raw_owner_exclusion_and_power_integration_gates() {
    assert!(!HashSchema::BeforeWithoutRawInfantryOwners(161).includes_raw_infantry_owners());
    assert!(HashSchema::Before(161).includes_raw_infantry_owners());
    assert!(!HashSchema::BeforeBuildingPowerIntegration.includes_building_power_integration());
    assert!(HashSchema::Current.includes_building_power_integration());
    assert_eq!(HashFeature::GapOperational.first_schema(), 144);
}

#[test]
fn projections_are_monotone_in_the_schema_number() {
    for version in [100u16, 140, 175] {
        let older = HashSchema::Before(version).includes(HashFeature::SustainedGapSight);
        let newer = HashSchema::Before(version + 1).includes(HashFeature::SustainedGapSight);
        assert!(!older || newer);
    }
}
