use modelfit::recommend::{
    assess, assess_is_defined, budget_from, budget_is_defined, host_bandwidth_gb_s,
    overhead_for, pick, Bandwidth, Budget, BudgetKind, Candidate, Fit, GpuInfo, GpuState,
    HardwareInfo, Real, Reason, SpeedKey, GIB, MIB, PLEASANT_FLOOR_KEY,
};

fn gpu(vram_mb: Option<u64>, bandwidth: Option<f64>) -> GpuInfo {
    GpuInfo {
        vram_mb,
        shared: false,
        state: GpuState::Working,
        bandwidth_gb_s: bandwidth.map(|b| Real { bits: b.to_bits() }),
    }
}

fn machine(ram_mb: u64, vram_mb: Option<u64>, unified: bool) -> HardwareInfo {
    HardwareInfo {
        ram_mb,
        ram_kind: None,
        gpus: vram_mb.map(|v| vec![gpu(Some(v), None)]).unwrap_or_default(),
        unified_memory: unified,
    }
}

fn key(tok_s: f64) -> SpeedKey {
    if tok_s.is_nan() {
        SpeedKey::Unordered
    } else if tok_s > 0.0 {
        SpeedKey::Key(tok_s.to_bits())
    } else {
        SpeedKey::Key(0)
    }
}

#[test]
fn overhead_is_twelve_percent_with_a_floor() {
    assert_eq!(overhead_for(0), 768 * MIB);
    assert_eq!(overhead_for(1000), 768 * MIB);
    assert_eq!(overhead_for(100_000_000_000), 12_000_000_000);
    assert_eq!(overhead_for(7_000_000_001), 840_000_000);
    for size in [5_000_000_000u64, 17_348_290_432, 22_000_000_007, 123_456_789_012] {
        assert_eq!(overhead_for(size), (768 * MIB).max((size as f64 * 0.12) as u64));
    }
}

#[test]
fn host_bandwidth_by_ram_kind() {
    assert_eq!(host_bandwidth_gb_s(Some("LPDDR5X")), 90);
    assert_eq!(host_bandwidth_gb_s(Some("DDR5")), 65);
    assert_eq!(host_bandwidth_gb_s(Some("LPDDR4X")), 50);
    assert_eq!(host_bandwidth_gb_s(Some("DDR4")), 45);
    assert_eq!(host_bandwidth_gb_s(Some("DDR3")), 80);
    assert_eq!(host_bandwidth_gb_s(Some("ddr5")), 80);
    assert_eq!(host_bandwidth_gb_s(None), 80);
}

#[test]
fn discrete_budget_reserves_for_the_desktop() {
    let info = machine(65536, Some(24576), false);
    assert!(budget_is_defined(&info));
    let b = budget_from(&info);
    let vram = 24576 * MIB;
    let ram = 65536 * MIB;
    assert_eq!(b.kind, BudgetKind::DiscreteGpu);
    let reserve = (2 * GIB).max((vram as f64 * 0.09) as u64);
    assert_eq!(b.resident_bytes, vram - reserve);
    assert_eq!(b.resident_bytes, 23_450_521_437);
    assert_eq!(b.spill_extra_bytes, (ram as f64 * 0.80) as u64);
    assert_eq!(b.resident_bandwidth_gb_s, Bandwidth::Class(1000));
    assert!(!b.bandwidth_measured);
    assert_eq!(b.host_bandwidth_gb_s, 80);
}

#[test]
fn small_card_keeps_two_gib() {
    let b = budget_from(&machine(31775, Some(8192), false));
    assert_eq!(b.resident_bytes, 6 * GIB);
    let tiny = budget_from(&machine(8192, Some(1024), false));
    assert_eq!(tiny.kind, BudgetKind::DiscreteGpu);
    assert_eq!(tiny.resident_bytes, 0);
}

#[test]
fn measured_gpu_bandwidth_is_used() {
    let mut info = machine(31775, Some(8192), false);
    info.gpus[0].bandwidth_gb_s = Some(Real { bits: 326.0f64.to_bits() });
    let b = budget_from(&info);
    assert!(b.bandwidth_measured);
    assert_eq!(b.resident_bandwidth_gb_s, Bandwidth::Measured(Real { bits: 326.0f64.to_bits() }));
}

#[test]
fn unified_budget_leaves_a_fifth_to_the_os() {
    let info = machine(32768, None, true);
    let b = budget_from(&info);
    assert_eq!(b.kind, BudgetKind::UnifiedMemory);
    assert_eq!(b.resident_bytes, ((32768 * MIB) as f64 * 0.80) as u64);
    assert_eq!(b.spill_extra_bytes, 0);
    assert_eq!(b.resident_bandwidth_gb_s, Bandwidth::Class(210));
}

#[test]
fn unified_budget_uses_first_measured_bandwidth() {
    let mut info = machine(32768, None, true);
    info.gpus = vec![gpu(None, None), gpu(None, Some(400.0)), gpu(None, Some(100.0))];
    let b = budget_from(&info);
    assert_eq!(b.resident_bytes, ((32768 * MIB) as f64 * 0.80) as u64);
    assert_eq!(b.resident_bandwidth_gb_s, Bandwidth::Measured(Real { bits: 400.0f64.to_bits() }));
    assert!(b.bandwidth_measured);
}

#[test]
fn cpu_only_laptop_budget() {
    let mut info = machine(8192, None, false);
    info.ram_kind = Some("DDR5".to_string());
    let b = budget_from(&info);
    assert_eq!(b.kind, BudgetKind::CpuOnly);
    assert_eq!(b.resident_bytes, 6_871_947_673);
    assert_eq!(b.resident_bandwidth_gb_s, Bandwidth::Class(65));
    assert_eq!(b.host_bandwidth_gb_s, 65);
    assert!(!b.driver_missing_nvidia);
}

#[test]
fn shared_or_driverless_gpus_are_not_used() {
    let mut info = machine(16384, None, false);
    info.gpus = vec![
        GpuInfo { vram_mb: Some(4096), shared: true, state: GpuState::Working, bandwidth_gb_s: None },
        GpuInfo { vram_mb: Some(12288), shared: false, state: GpuState::DriverMissing, bandwidth_gb_s: None },
    ];
    let b = budget_from(&info);
    assert_eq!(b.kind, BudgetKind::CpuOnly);
    assert!(b.driver_missing_nvidia);
}

#[test]
fn largest_gpu_wins_and_the_last_of_equals() {
    let mut info = machine(16384, None, false);
    info.gpus = vec![gpu(Some(8192), Some(1.0)), gpu(Some(12288), Some(2.0)), gpu(Some(12288), Some(3.0)), gpu(Some(4096), Some(4.0))];
    let b = budget_from(&info);
    assert_eq!(b.resident_bandwidth_gb_s, Bandwidth::Measured(Real { bits: 3.0f64.to_bits() }));
}

#[test]
fn overflowing_machine_is_not_defined() {
    let info = machine(u64::MAX, None, false);
    assert!(!budget_is_defined(&info));
    let info = machine(1024, Some(u64::MAX / 2), false);
    assert!(!budget_is_defined(&info));
}

fn budget(kind: BudgetKind, resident: u64, spill: u64) -> Budget {
    Budget {
        kind,
        resident_bytes: resident,
        spill_extra_bytes: spill,
        resident_bandwidth_gb_s: Bandwidth::Class(1000),
        host_bandwidth_gb_s: 80,
        bandwidth_measured: false,
        driver_missing_nvidia: false,
    }
}

#[test]
fn assess_resident_spilled_too_big_unknown() {
    let b = budget(BudgetKind::DiscreteGpu, 6 * GIB, 24 * GIB);
    let size = 4_000_000_000u64;
    assert!(assess_is_defined(Some(size), false, &b));
    assert_eq!(assess(Some(size), false, &b), Fit::Resident);
    let moe = 22_000_000_000u64;
    assert_eq!(assess(Some(moe), true, &b), Fit::Spilled);
    assert_eq!(assess(Some(moe), false, &b), Fit::TooBig);
    assert_eq!(assess(Some(40_000_000_000), true, &b), Fit::TooBig);
    assert_eq!(assess(None, true, &b), Fit::UnknownSize);
    let cpu = budget(BudgetKind::CpuOnly, 6 * GIB, 24 * GIB);
    assert_eq!(assess(Some(moe), true, &cpu), Fit::TooBig);
}

#[test]
fn assess_boundary_is_inclusive() {
    let size = 10_000_000_000u64;
    let need = size + overhead_for(size);
    assert_eq!(assess(Some(size), false, &budget(BudgetKind::CpuOnly, need, 0)), Fit::Resident);
    assert_eq!(assess(Some(size), false, &budget(BudgetKind::CpuOnly, need - 1, 0)), Fit::TooBig);
}

#[test]
fn assess_overflow_is_not_defined() {
    let b = budget(BudgetKind::DiscreteGpu, 0, 0);
    assert!(!assess_is_defined(Some(u64::MAX), false, &b));
    let half = 1u64 << 63;
    let b = budget(BudgetKind::DiscreteGpu, half, half);
    assert!(!assess_is_defined(Some(half), true, &b));
    assert!(assess_is_defined(Some(half), false, &b));
    assert_eq!(assess(Some(half), false, &b), Fit::TooBig);
}

fn cand(quality: u32, fits: Option<(f64, bool)>) -> Candidate {
    Candidate {
        quality,
        fits: fits.map(|(t, s)| (key(t), s)),
    }
}

#[test]
fn floor_key_is_twenty_tok_s() {
    assert_eq!(PLEASANT_FLOOR_KEY, 20.0f64.to_bits());
}

#[test]
fn best_quality_resident_pick() {
    let cs = vec![cand(95, None), cand(90, Some((25.0, false))), cand(60, Some((66.0, false)))];
    assert_eq!(pick(&cs), (Some(1), Some(Reason::BestQualityResident)));
}

#[test]
fn best_quality_spilled_pick() {
    let cs = vec![cand(90, None), cand(80, Some((29.0, true))), cand(60, Some((66.0, false)))];
    assert_eq!(pick(&cs), (Some(1), Some(Reason::BestQualitySpilled)));
}

#[test]
fn speed_gated_pick() {
    let cs = vec![cand(90, Some((11.0, false))), cand(80, Some((40.0, false))), cand(60, Some((60.0, false)))];
    let (p, r) = pick(&cs);
    assert_eq!(p, Some(1));
    assert_eq!(r, Some(Reason::SpeedGatedQuality));
    assert_eq!(r.unwrap().as_str(), "speed-gated-quality");
}

#[test]
fn first_of_equal_quality_wins() {
    let cs = vec![cand(80, Some((30.0, true))), cand(80, Some((90.0, false)))];
    assert_eq!(pick(&cs), (Some(0), Some(Reason::BestQualitySpilled)));
}

#[test]
fn fastest_fits_when_nothing_is_pleasant() {
    let cs = vec![cand(90, Some((5.0, false))), cand(40, Some((12.0, true))), cand(30, Some((12.0, false))), cand(99, None)];
    assert_eq!(pick(&cs), (Some(1), Some(Reason::FastestFits)));
}

#[test]
fn zero_quality_pleasant_model_is_picked_by_speed() {
    let cs = vec![cand(0, Some((50.0, false))), cand(10, Some((15.0, false)))];
    assert_eq!(pick(&cs), (Some(0), Some(Reason::FastestFits)));
}

#[test]
fn nothing_fits_nothing_picked() {
    let cs = vec![cand(90, None), cand(50, None)];
    assert_eq!(pick(&cs), (None, None));
    assert_eq!(pick(&vec![]), (None, None));
}

#[test]
fn unordered_and_zero_speeds_are_never_fastest() {
    let cs = vec![cand(90, Some((f64::NAN, false))), cand(50, Some((0.0, false)))];
    assert_eq!(pick(&cs), (None, None));
}

#[test]
fn unordered_speed_does_not_gate() {
    let cs = vec![cand(90, Some((f64::NAN, false))), cand(50, Some((30.0, false)))];
    assert_eq!(pick(&cs), (Some(1), Some(Reason::BestQualityResident)));
}

#[test]
fn reasons_as_reported() {
    assert_eq!(Reason::BestQualityResident.as_str(), "best-quality-resident");
    assert_eq!(Reason::BestQualitySpilled.as_str(), "best-quality-spilled");
    assert_eq!(Reason::SpeedGatedQuality.as_str(), "speed-gated-quality");
    assert_eq!(Reason::FastestFits.as_str(), "fastest-fits");
}

#[test]
fn more_room_never_hurts() {
    let moe = 22_000_000_000u64;
    let small = budget(BudgetKind::DiscreteGpu, 6 * GIB, 24 * GIB);
    let large = budget(BudgetKind::DiscreteGpu, 30 * GIB, 24 * GIB);
    assert_eq!(assess(Some(moe), true, &small), Fit::Spilled);
    assert_eq!(assess(Some(moe), true, &large), Fit::Resident);
    let dense = 4_000_000_000u64;
    assert_eq!(assess(Some(dense), false, &small), Fit::Resident);
    assert_eq!(assess(Some(dense), false, &large), Fit::Resident);
}
