use buschain::clock::{
    clear_clock_mutation, clock_mutation_in_flight, engine_quantums, engine_rate_is_extreme,
    engine_rates, mark_clock_mutation, resolve_engine_profile, AudioPreset, ClockMutation,
};

#[test]
fn engine_profile_allows_192k_independent_of_hw() {
    let p = resolve_engine_profile(AudioPreset::Custom, Some(192_000), Some(256), true);
    assert_eq!(p.sample_rate, 192_000);
    assert_eq!(p.quantum, 256);
    assert!(!p.device_limited);
}

#[test]
fn engine_profile_allows_dxd_and_384k() {
    let dxd = resolve_engine_profile(AudioPreset::Custom, Some(352_800), Some(512), true);
    assert_eq!(dxd.sample_rate, 352_800);
    assert!(engine_rate_is_extreme(dxd.sample_rate));
    let apex = resolve_engine_profile(AudioPreset::Custom, Some(384_000), Some(512), true);
    assert_eq!(apex.sample_rate, 384_000);
    assert!(engine_rate_is_extreme(apex.sample_rate));
    assert!(!engine_rate_is_extreme(192_000));
}

#[test]
fn engine_presets_are_catalog_defaults() {
    let bal = resolve_engine_profile(AudioPreset::Balanced, None, None, true);
    assert_eq!((bal.sample_rate, bal.quantum), (48_000, 256));
    let low = resolve_engine_profile(AudioPreset::LowLatency, None, None, false);
    assert_eq!((low.sample_rate, low.quantum), (48_000, 64));
    let stab = resolve_engine_profile(AudioPreset::Stable, None, None, true);
    assert_eq!((stab.sample_rate, stab.quantum), (48_000, 512));
}

#[test]
fn engine_custom_snaps_unknown_rate() {
    let p = resolve_engine_profile(AudioPreset::Custom, Some(50_000), Some(200), true);
    assert!(engine_rates().contains(&p.sample_rate));
    assert!(engine_quantums().contains(&p.quantum));
}

#[test]
fn clock_mutation_flag_holds_then_clears() {
    let mut m = ClockMutation::new();
    clear_clock_mutation(&mut m);
    mark_clock_mutation(&mut m, 1_000, 2_000);
    assert!(clock_mutation_in_flight(&m, 1_000));
    clear_clock_mutation(&mut m);
    assert!(!clock_mutation_in_flight(&m, 1_000));
}
