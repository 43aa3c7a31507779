//! The opinions: a budget from the measured hardware, the fit of each model
//! in it, and the pick among the models that fit.
//!
//! Margins: max(2 GiB, 9%) of discrete VRAM stays with the desktop; 20% of
//! RAM stays with the OS; a model needs its weights plus an overhead of
//! max(768 MiB, 12%) of its size. Below the pleasant floor of 20 tok/s a
//! model stops feeling pleasant for interactive use.
use vstd::prelude::*;
use vstd::string::*;
use crate::text::{is_prefix, starts_with};

verus! {

pub const MIB: u64 = 1048576;

pub const GIB: u64 = 1073741824;

/// Class value of a discrete GPU's bandwidth when none was measured, GB/s.
pub const DISCRETE_BANDWIDTH_GB_S: u32 = 1000;

/// Class value of a unified memory pool's bandwidth when none was measured, GB/s.
pub const UMA_BANDWIDTH_GB_S: u32 = 210;

/// Class value of host RAM bandwidth when its kind is unknown, GB/s.
pub const HOST_BANDWIDTH_GB_S: u32 = 80;

/// A real number that the library carries and hands back unchanged: the
/// IEEE-754 binary64 encoding of the value. No function of the library
/// reads these bits.
#[derive(Clone, Copy, Debug, PartialEq, Eq, Structural)]
pub struct Real {
    pub bits: u64,
}

/// The overhead allowance for a model of `size` bytes: KV cache and runtime
/// at a modest context, 12% of the size (rounded down), at least 768 MiB.
pub open spec fn overhead_allowance(size: int) -> int {
    let share = size * 12 / 100;
    if share > 768 * MIB {
        share
    } else {
        768 * MIB
    }
}

/// KV cache + runtime overhead allowance at a modest context, scaled to
/// model size (a 5GB model does not carry a 20GB model's KV).
pub fn overhead_for(size: u64) -> (r: u64)
    ensures
        r == overhead_allowance(size as int),
{
    let share = size / 100 * 12 + size % 100 * 12 / 100;
    assert(share == size * 12 / 100) by (nonlinear_arith)
        requires
            share == size / 100 * 12 + size % 100 * 12 / 100,
    {
        let q = size / 100;
        let m = size % 100;
        assert(size == 100 * q + m);
        assert(size * 12 == 100 * (12 * q) + 12 * m);
    }
    let floor: u64 = 768 * MIB;
    if share > floor {
        share
    } else {
        floor
    }
}

/// The view of an optional string.
pub open spec fn opt_chars(o: Option<&str>) -> Option<Seq<char>> {
    match o {
        Some(s) => Some(s@),
        None => None,
    }
}

/// Host RAM bandwidth by memory kind (effective class values, GB/s).
pub open spec fn host_class_bandwidth(kind: Option<Seq<char>>) -> u32 {
    match kind {
        Some(k) => if is_prefix("LPDDR5"@, k) {
            90
        } else if is_prefix("DDR5"@, k) {
            65
        } else if is_prefix("LPDDR4"@, k) {
            50
        } else if is_prefix("DDR4"@, k) {
            45
        } else {
            HOST_BANDWIDTH_GB_S
        },
        None => HOST_BANDWIDTH_GB_S,
    }
}

/// Host RAM bandwidth by memory kind, GB/s.
pub fn host_bandwidth_gb_s(ram_kind: Option<&str>) -> (r: u32)
    ensures
        r == host_class_bandwidth(opt_chars(ram_kind)),
{
    match ram_kind {
        Some(k) => if starts_with(k, "LPDDR5") {
            90
        } else if starts_with(k, "DDR5") {
            65
        } else if starts_with(k, "LPDDR4") {
            50
        } else if starts_with(k, "DDR4") {
            45
        } else {
            HOST_BANDWIDTH_GB_S
        },
        None => HOST_BANDWIDTH_GB_S,
    }
}


/// Where the budget's memory lives.
#[derive(Clone, Copy, Debug, PartialEq, Eq, Structural)]
pub enum BudgetKind {
    DiscreteGpu,
    UnifiedMemory,
    CpuOnly,
}

/// Whether a detected GPU has a usable driver.
#[derive(Clone, Copy, Debug, PartialEq, Eq, Structural)]
pub enum GpuState {
    Working,
    /// Hardware present but no usable driver API.
    DriverMissing,
}

/// What the budget reads of one detected GPU.
#[derive(Clone, Copy, Debug, PartialEq, Eq, Structural)]
pub struct GpuInfo {
    /// None = shared/unknown.
    pub vram_mb: Option<u64>,
    /// true = iGPU / dynamic shared memory, not dedicated VRAM.
    pub shared: bool,
    pub state: GpuState,
    /// Measured effective memory bandwidth, GB/s, where the driver gave one.
    pub bandwidth_gb_s: Option<Real>,
}

/// What the budget reads of the detected machine.
#[derive(Debug)]
pub struct HardwareInfo {
    pub ram_mb: u64,
    /// "DDR4", "DDR5", "LPDDR5", ... None if undetectable.
    pub ram_kind: Option<String>,
    pub gpus: Vec<GpuInfo>,
    /// CPU and GPU share `ram_mb`.
    pub unified_memory: bool,
}

/// A memory bandwidth: one a GPU reported, or a class value in GB/s.
#[derive(Clone, Copy, Debug, PartialEq, Eq, Structural)]
pub enum Bandwidth {
    Measured(Real),
    Class(u32),
}

/// What a machine offers to a model.
#[derive(Clone, Copy, Debug, PartialEq, Eq, Structural)]
pub struct Budget {
    pub kind: BudgetKind,
    /// Bytes the model (weights + overhead) may occupy resident.
    pub resident_bytes: u64,
    /// Extra host bytes available for spilled MoE weights (discrete only).
    pub spill_extra_bytes: u64,
    /// Bandwidth of the resident tier (GPU or unified pool).
    pub resident_bandwidth_gb_s: Bandwidth,
    /// Bandwidth of host RAM (spill tier / CPU-only), GB/s.
    pub host_bandwidth_gb_s: u32,
    /// The resident bandwidth was measured rather than a class constant.
    pub bandwidth_measured: bool,
    pub driver_missing_nvidia: bool,
}

/// 80% of `x`, rounded down: what the OS leaves to a model.
pub open spec fn eighty_percent(x: int) -> int {
    x * 4 / 5
}

/// 9% of `x`, rounded down.
pub open spec fn nine_percent(x: int) -> int {
    x * 9 / 100
}

fn eighty_percent_of(x: u64) -> (r: u64)
    ensures
        r == eighty_percent(x as int),
{
    let r = x / 5 * 4 + x % 5 * 4 / 5;
    assert(r == x * 4 / 5) by (nonlinear_arith)
        requires
            r == x / 5 * 4 + x % 5 * 4 / 5,
    {
        let q = x / 5;
        let m = x % 5;
        assert(x == 5 * q + m);
        assert(x * 4 == 5 * (4 * q) + 4 * m);
    }
    r
}

fn nine_percent_of(x: u64) -> (r: u64)
    ensures
        r == nine_percent(x as int),
{
    let r = x / 100 * 9 + x % 100 * 9 / 100;
    assert(r == x * 9 / 100) by (nonlinear_arith)
        requires
            r == x / 100 * 9 + x % 100 * 9 / 100,
    {
        let q = x / 100;
        let m = x % 100;
        assert(x == 100 * q + m);
        assert(x * 9 == 100 * (9 * q) + 9 * m);
    }
    r
}

/// A GPU the discrete budget may use: dedicated, working, with known VRAM.
pub open spec fn eligible(g: GpuInfo) -> bool {
    !g.shared && g.state == GpuState::Working && g.vram_mb is Some
}

/// The GPU with the most VRAM among the eligible ones; of several with
/// the same VRAM, the last.
pub open spec fn best_gpu(gpus: Seq<GpuInfo>) -> Option<int>
    decreases gpus.len(),
{
    if gpus.len() == 0 {
        None
    } else {
        let prev = best_gpu(gpus.drop_last());
        let g = gpus.last();
        if eligible(g) && (match prev {
            None => true,
            Some(b) => gpus[b].vram_mb.unwrap() <= g.vram_mb.unwrap(),
        }) {
            Some(gpus.len() - 1)
        } else {
            prev
        }
    }
}

/// The best GPU is eligible and has at least the VRAM of every eligible GPU.
pub proof fn lemma_best_gpu(gpus: Seq<GpuInfo>)
    ensures
        match best_gpu(gpus) {
            Some(b) => 0 <= b < gpus.len() && eligible(gpus[b]) && (forall|j: int|
                0 <= j < gpus.len() && eligible(gpus[j]) ==> gpus[j].vram_mb.unwrap()
                    <= gpus[b].vram_mb.unwrap()) && (forall|j: int|
                b < j < gpus.len() && eligible(gpus[j]) ==> gpus[j].vram_mb.unwrap()
                    < gpus[b].vram_mb.unwrap()),
            None => forall|j: int| 0 <= j < gpus.len() ==> !eligible(gpus[j]),
        },
    decreases gpus.len(),
{
    if gpus.len() > 0 {
        let pre = gpus.drop_last();
        lemma_best_gpu(pre);
        assert forall|j: int| 0 <= j < pre.len() implies pre[j] == gpus[j] by {}
    }
}

/// The first measured GPU is the first GPU that reported a bandwidth: it
/// reported one and no GPU before it did; when there is none, no GPU did.
pub proof fn lemma_first_measured(gpus: Seq<GpuInfo>)
    ensures
        match first_measured(gpus) {
            Some(i) => 0 <= i < gpus.len() && gpus[i].bandwidth_gb_s is Some && forall|j: int|
                0 <= j < i ==> gpus[j].bandwidth_gb_s is None,
            None => forall|j: int| 0 <= j < gpus.len() ==> gpus[j].bandwidth_gb_s is None,
        },
    decreases gpus.len(),
{
    if gpus.len() > 0 {
        let pre = gpus.drop_last();
        lemma_first_measured(pre);
        assert forall|j: int| 0 <= j < pre.len() implies pre[j] == gpus[j] by {}
    }
}

/// The first GPU that reported a measured bandwidth.
pub open spec fn first_measured(gpus: Seq<GpuInfo>) -> Option<int>
    decreases gpus.len(),
{
    if gpus.len() == 0 {
        None
    } else {
        match first_measured(gpus.drop_last()) {
            Some(i) => Some(i),
            None => if gpus.last().bandwidth_gb_s is Some {
                Some(gpus.len() - 1)
            } else {
                None
            },
        }
    }
}

/// Some GPU was seen whose driver is missing.
pub open spec fn any_driver_missing(gpus: Seq<GpuInfo>) -> bool {
    exists|i: int| 0 <= i < gpus.len() && gpus[i].state == GpuState::DriverMissing
}

/// The view of an optional owned string.
pub open spec fn opt_string(o: Option<String>) -> Option<Seq<char>> {
    match o {
        Some(s) => Some(s@),
        None => None,
    }
}

/// The machine's figures stay within what 64-bit byte counts can hold:
/// RAM, and the VRAM of the GPU a discrete budget would use.
pub open spec fn budget_defined(info: HardwareInfo) -> bool {
    &&& info.ram_mb * MIB <= u64::MAX
    &&& (!info.unified_memory && best_gpu(info.gpus@) is Some) ==> info.gpus@[best_gpu(info.gpus@).unwrap()].vram_mb.unwrap() * MIB <= u64::MAX
}

/// The budget of a machine.
/// - Unified memory: 80% of RAM (20% stays with the OS); bandwidth measured
///   on the first GPU that reports one, else the unified class value; no
///   spill.
/// - A dedicated, working GPU with known VRAM (the one with most VRAM):
///   its VRAM minus max(2 GiB, 9%), saturating at 0; 80% of RAM for MoE spill;
///   its measured bandwidth, else the discrete class value.
/// - Otherwise CPU only: 80% of RAM at host bandwidth, no spill.
pub open spec fn budget_of(info: HardwareInfo) -> Budget {
    let ram_bytes = info.ram_mb * MIB;
    let host_bw = host_class_bandwidth(opt_string(info.ram_kind));
    let driver_missing = any_driver_missing(info.gpus@);
    if info.unified_memory {
        let resident = eighty_percent(ram_bytes);
        let measured = first_measured(info.gpus@);
        Budget {
            kind: BudgetKind::UnifiedMemory,
            resident_bytes: resident as u64,
            spill_extra_bytes: 0,
            resident_bandwidth_gb_s: match measured {
                Some(i) => Bandwidth::Measured(info.gpus@[i].bandwidth_gb_s.unwrap()),
                None => Bandwidth::Class(UMA_BANDWIDTH_GB_S),
            },
            host_bandwidth_gb_s: host_bw,
            bandwidth_measured: measured is Some,
            driver_missing_nvidia: driver_missing,
        }
    } else {
        match best_gpu(info.gpus@) {
            Some(b) => {
                let gpu = info.gpus@[b];
                let vram = gpu.vram_mb.unwrap() * MIB;
                let reserve = if 2 * GIB >= nine_percent(vram) {
                    2 * GIB
                } else {
                    nine_percent(vram)
                };
                Budget {
                    kind: BudgetKind::DiscreteGpu,
                    resident_bytes: if vram >= reserve {
                        (vram - reserve) as u64
                    } else {
                        0
                    },
                    spill_extra_bytes: eighty_percent(ram_bytes) as u64,
                    resident_bandwidth_gb_s: match gpu.bandwidth_gb_s {
                        Some(r) => Bandwidth::Measured(r),
                        None => Bandwidth::Class(DISCRETE_BANDWIDTH_GB_S),
                    },
                    host_bandwidth_gb_s: host_bw,
                    bandwidth_measured: gpu.bandwidth_gb_s is Some,
                    driver_missing_nvidia: driver_missing,
                }
            },
            None => Budget {
                kind: BudgetKind::CpuOnly,
                resident_bytes: eighty_percent(ram_bytes) as u64,
                spill_extra_bytes: 0,
                resident_bandwidth_gb_s: Bandwidth::Class(host_bw),
                host_bandwidth_gb_s: host_bw,
                bandwidth_measured: false,
                driver_missing_nvidia: driver_missing,
            },
        }
    }
}

fn any_gpu_driver_missing(gpus: &Vec<GpuInfo>) -> (r: bool)
    ensures
        r == any_driver_missing(gpus@),
{
    let mut i: usize = 0;
    while i < gpus.len()
        invariant
            i <= gpus@.len(),
            forall|j: int| 0 <= j < i ==> gpus@[j].state != GpuState::DriverMissing,
        decreases gpus@.len() - i,
    {
        if gpus[i].state == GpuState::DriverMissing {
            return true;
        }
        i = i + 1;
    }
    false
}

fn first_measured_bandwidth(gpus: &Vec<GpuInfo>) -> (r: Option<Real>)
    ensures
        match first_measured(gpus@) {
            Some(i) => 0 <= i < gpus@.len() && r == gpus@[i].bandwidth_gb_s && r is Some,
            None => r is None,
        },
{
    proof {
        lemma_first_measured(gpus@);
    }
    let mut i: usize = 0;
    while i < gpus.len()
        invariant
            i <= gpus@.len(),
            first_measured(gpus@.take(i as int)) is None,
            forall|j: int| 0 <= j < i ==> gpus@[j].bandwidth_gb_s is None,
        decreases gpus@.len() - i,
    {
        assert(gpus@.take(i + 1).drop_last() =~= gpus@.take(i as int));
        if gpus[i].bandwidth_gb_s.is_some() {
            proof {
                lemma_first_measured_prefix(gpus@, i as int + 1);
            }
            return gpus[i].bandwidth_gb_s;
        }
        i = i + 1;
    }
    assert(gpus@.take(gpus@.len() as int) =~= gpus@);
    None
}

/// A first measured GPU within a prefix is the first of the whole list.
proof fn lemma_first_measured_prefix(gpus: Seq<GpuInfo>, n: int)
    requires
        0 <= n <= gpus.len(),
        first_measured(gpus.take(n)) is Some,
    ensures
        first_measured(gpus) == first_measured(gpus.take(n)),
    decreases gpus.len() - n,
{
    if n < gpus.len() {
        assert(gpus.take(n + 1).drop_last() =~= gpus.take(n));
        lemma_first_measured_prefix(gpus, n + 1);
    } else {
        assert(gpus.take(n) =~= gpus);
    }
}

fn best_gpu_index(gpus: &Vec<GpuInfo>) -> (r: Option<usize>)
    ensures
        match r {
            Some(b) => best_gpu(gpus@) == Some(b as int),
            None => best_gpu(gpus@) is None,
        },
{
    let mut best: Option<usize> = None;
    let mut i: usize = 0;
    while i < gpus.len()
        invariant
            i <= gpus@.len(),
            match best {
                Some(b) => best_gpu(gpus@.take(i as int)) == Some(b as int) && b < i,
                None => best_gpu(gpus@.take(i as int)) is None,
            },
        decreases gpus@.len() - i,
    {
        assert(gpus@.take(i + 1).drop_last() =~= gpus@.take(i as int));
        let g = &gpus[i];
        let take = match g.vram_mb {
            Some(v) => !g.shared && g.state == GpuState::Working && match best {
                None => true,
                Some(b) => match gpus[b].vram_mb {
                    Some(bv) => bv <= v,
                    None => true,
                },
            },
            None => false,
        };
        proof {
            let pre = gpus@.take(i as int);
            lemma_best_gpu(pre);
            assert(gpus@.take(i + 1).last() == gpus@[i as int]);
            if let Some(b) = best {
                assert(gpus@.take(i + 1)[b as int] == gpus@[b as int]);
                assert(pre[b as int] == gpus@[b as int]);
            }
        }
        if take {
            best = Some(i);
        }
        i = i + 1;
    }
    assert(gpus@.take(gpus@.len() as int) =~= gpus@);
    best
}

/// Checks `budget_defined` on a machine.
pub fn budget_is_defined(info: &HardwareInfo) -> (r: bool)
    ensures
        r == budget_defined(*info),
{
    if info.ram_mb.checked_mul(MIB).is_none() {
        return false;
    }
    if info.unified_memory {
        true
    } else {
        proof {
            lemma_best_gpu(info.gpus@);
        }
        match best_gpu_index(&info.gpus) {
            Some(b) => match info.gpus[b].vram_mb {
                Some(v) => v.checked_mul(MIB).is_some(),
                None => true,
            },
            None => true,
        }
    }
}

/// The budget a machine offers to a model; see `budget_of`.
pub fn budget_from(info: &HardwareInfo) -> (r: Budget)
    requires
        budget_defined(*info),
    ensures
        r == budget_of(*info),
{
    let ram_bytes = info.ram_mb * MIB;
    let host_bw = match &info.ram_kind {
        Some(k) => host_bandwidth_gb_s(Some(k.as_str())),
        None => host_bandwidth_gb_s(None),
    };
    let driver_missing_nvidia = any_gpu_driver_missing(&info.gpus);
    if info.unified_memory {
        let resident = eighty_percent_of(ram_bytes);
        let measured = first_measured_bandwidth(&info.gpus);
        return Budget {
            kind: BudgetKind::UnifiedMemory,
            resident_bytes: resident,
            spill_extra_bytes: 0,
            resident_bandwidth_gb_s: match measured {
                Some(r) => Bandwidth::Measured(r),
                None => Bandwidth::Class(UMA_BANDWIDTH_GB_S),
            },
            host_bandwidth_gb_s: host_bw,
            bandwidth_measured: measured.is_some(),
            driver_missing_nvidia,
        };
    }
    match best_gpu_index(&info.gpus) {
        Some(b) => {
            proof {
                lemma_best_gpu(info.gpus@);
            }
            let gpu = &info.gpus[b];
            let vram = match gpu.vram_mb {
                Some(v) => v * MIB,
                None => 0,
            };
            let nine = nine_percent_of(vram);
            let reserve = if 2 * GIB >= nine {
                2 * GIB
            } else {
                nine
            };
            let resident = vram.saturating_sub(reserve);
            let spill = eighty_percent_of(ram_bytes);
            Budget {
                kind: BudgetKind::DiscreteGpu,
                resident_bytes: resident,
                spill_extra_bytes: spill,
                resident_bandwidth_gb_s: match gpu.bandwidth_gb_s {
                    Some(r) => Bandwidth::Measured(r),
                    None => Bandwidth::Class(DISCRETE_BANDWIDTH_GB_S),
                },
                host_bandwidth_gb_s: host_bw,
                bandwidth_measured: gpu.bandwidth_gb_s.is_some(),
                driver_missing_nvidia,
            }
        },
        None => Budget {
            kind: BudgetKind::CpuOnly,
            resident_bytes: eighty_percent_of(ram_bytes),
            spill_extra_bytes: 0,
            resident_bandwidth_gb_s: Bandwidth::Class(host_bw),
            host_bandwidth_gb_s: host_bw,
            bandwidth_measured: false,
            driver_missing_nvidia,
        },
    }
}


/// How a model fits a budget.
#[derive(Clone, Copy, Debug, PartialEq, Eq, Structural)]
pub enum Fit {
    /// Fits entirely in the resident budget.
    Resident,
    /// Weights exceed resident but fit across resident+host; MoE only.
    Spilled,
    TooBig,
    /// Size missing in the catalogue.
    UnknownSize,
}

/// Bytes a model of `size` bytes needs: its weights plus the overhead.
pub open spec fn need_of(size: u64) -> int {
    size + overhead_allowance(size as int)
}

/// The byte sums that assessing a model adds stay within 64 bits.
pub open spec fn assess_defined(size_bytes: Option<u64>, sparse_decode: bool, budget: Budget) -> bool {
    match size_bytes {
        None => true,
        Some(size) => {
            &&& need_of(size) <= u64::MAX
            &&& (need_of(size) > budget.resident_bytes && budget.kind == BudgetKind::DiscreteGpu
                && sparse_decode) ==> budget.resident_bytes + budget.spill_extra_bytes <= u64::MAX
        },
    }
}

/// The fit of a model in a budget. A model fits resident when weights and
/// overhead fit the resident bytes. Otherwise it spills only on a discrete
/// GPU and only when it decodes from a small slice of its weights (MoE):
/// dense models would stream everything over the bus every token.
pub open spec fn fit_of(size_bytes: Option<u64>, sparse_decode: bool, budget: Budget) -> Fit {
    match size_bytes {
        None => Fit::UnknownSize,
        Some(size) => {
            let need = need_of(size);
            if need <= budget.resident_bytes {
                Fit::Resident
            } else if budget.kind == BudgetKind::DiscreteGpu && sparse_decode && need
                <= budget.resident_bytes + budget.spill_extra_bytes {
                Fit::Spilled
            } else {
                Fit::TooBig
            }
        },
    }
}

/// Checks `assess_defined`.
pub fn assess_is_defined(size_bytes: Option<u64>, sparse_decode: bool, budget: &Budget) -> (r: bool)
    ensures
        r == assess_defined(size_bytes, sparse_decode, *budget),
{
    match size_bytes {
        None => true,
        Some(size) => {
            let overhead = overhead_for(size);
            match size.checked_add(overhead) {
                None => false,
                Some(need) => {
                    if need > budget.resident_bytes && budget.kind == BudgetKind::DiscreteGpu
                        && sparse_decode {
                        budget.resident_bytes.checked_add(budget.spill_extra_bytes).is_some()
                    } else {
                        true
                    }
                },
            }
        },
    }
}

/// The fit of a catalogue model of `size_bytes` in `budget`; `sparse_decode`
/// says that the model reads less than half of its weights per token.
pub fn assess(size_bytes: Option<u64>, sparse_decode: bool, budget: &Budget) -> (r: Fit)
    requires
        assess_defined(size_bytes, sparse_decode, *budget),
    ensures
        r == fit_of(size_bytes, sparse_decode, *budget),
{
    let size = match size_bytes {
        Some(size) => size,
        None => return Fit::UnknownSize,
    };
    let need = size + overhead_for(size);
    if need <= budget.resident_bytes {
        return Fit::Resident;
    }
    if budget.kind == BudgetKind::DiscreteGpu && sparse_decode && need <= budget.resident_bytes
        + budget.spill_extra_bytes {
        return Fit::Spilled;
    }
    Fit::TooBig
}

/// The position of a predicted decode speed among others. `Key(k)` orders
/// as `k` does: a speed of at most 0 has key 0, and a positive speed the
/// IEEE-754 encoding of its value, which orders positive numbers as they
/// compare. `Unordered` is a speed that compares false with every number.
#[derive(Clone, Copy, Debug, PartialEq, Eq, Structural)]
pub enum SpeedKey {
    Unordered,
    Key(u64),
}

/// The key of the pleasant floor, 20 tok/s.
pub const PLEASANT_FLOOR_KEY: u64 = 0x4034000000000000;

/// What the pick reads of one assessed model: its quality and, where it
/// fits, its speed and whether it spills.
#[derive(Clone, Copy, Debug)]
pub struct Candidate {
    pub quality: u32,
    pub fits: Option<(SpeedKey, bool)>,
}

/// Which rule made the pick.
#[derive(Clone, Copy, Debug, PartialEq, Eq, Structural)]
pub enum Reason {
    BestQualityResident,
    BestQualitySpilled,
    SpeedGatedQuality,
    FastestFits,
}

impl Reason {
    /// The reason as it is reported.
    pub fn as_str(&self) -> (r: &'static str)
        ensures
            r@ == (match *self {
                Reason::BestQualityResident => "best-quality-resident"@,
                Reason::BestQualitySpilled => "best-quality-spilled"@,
                Reason::SpeedGatedQuality => "speed-gated-quality"@,
                Reason::FastestFits => "fastest-fits"@,
            }),
    {
        match self {
            Reason::BestQualityResident => "best-quality-resident",
            Reason::BestQualitySpilled => "best-quality-spilled",
            Reason::SpeedGatedQuality => "speed-gated-quality",
            Reason::FastestFits => "fastest-fits",
        }
    }
}

/// Fits and clears the pleasant floor.
pub open spec fn pleasant(c: Candidate) -> bool {
    c.fits matches Some((SpeedKey::Key(k), _)) && k >= PLEASANT_FLOOR_KEY
}

/// Fits but decodes below the pleasant floor.
pub open spec fn below_floor(c: Candidate) -> bool {
    c.fits matches Some((SpeedKey::Key(k), _)) && k < PLEASANT_FLOOR_KEY
}

/// Fits by spilling.
pub open spec fn spills(c: Candidate) -> bool {
    c.fits matches Some((_, true))
}

/// The speed key of a fitting candidate; 0 for one that does not fit or
/// whose speed is unordered.
pub open spec fn speed_of(c: Candidate) -> u64 {
    match c.fits {
        Some((SpeedKey::Key(k), _)) => k,
        _ => 0,
    }
}

/// Some candidate fits, clears the floor and has a positive quality.
pub open spec fn has_quality_pick(cs: Seq<Candidate>) -> bool {
    exists|j: int| 0 <= j < cs.len() && pleasant(cs[j]) && cs[j].quality > 0
}

/// Some candidate fits with a positive speed.
pub open spec fn has_speed_pick(cs: Seq<Candidate>) -> bool {
    exists|j: int| 0 <= j < cs.len() && speed_of(cs[j]) > 0
}

/// `p` is the pick by quality: the first candidate of highest quality among
/// those that fit and clear the floor.
pub open spec fn is_quality_pick(cs: Seq<Candidate>, p: int) -> bool {
    &&& 0 <= p < cs.len()
    &&& pleasant(cs[p])
    &&& cs[p].quality > 0
    &&& forall|j: int| 0 <= j < cs.len() && pleasant(cs[j]) ==> cs[j].quality <= cs[p].quality
    &&& forall|j: int| 0 <= j < p && pleasant(cs[j]) ==> cs[j].quality < cs[p].quality
}

/// A candidate of higher quality than the pick fits but falls below the floor.
pub open spec fn speed_gated(cs: Seq<Candidate>, p: int) -> bool {
    exists|j: int| 0 <= j < cs.len() && below_floor(cs[j]) && cs[j].quality > cs[p].quality
}

/// `p` is the pick by speed: the first of the fastest candidates that fit.
pub open spec fn is_speed_pick(cs: Seq<Candidate>, p: int) -> bool {
    &&& 0 <= p < cs.len()
    &&& speed_of(cs[p]) > 0
    &&& forall|j: int| 0 <= j < cs.len() ==> speed_of(cs[j]) <= speed_of(cs[p])
    &&& forall|j: int| 0 <= j < p ==> speed_of(cs[j]) < speed_of(cs[p])
}

/// The pick and its reason as the rules make them: highest quality among
/// everything that fits (resident or spilled) above the pleasant floor,
/// reported as speed-gated when a better model fits but is too slow; else
/// the fastest thing that fits; else nothing.
pub open spec fn pick_rule(cs: Seq<Candidate>, pick: Option<usize>, reason: Option<Reason>) -> bool {
    if has_quality_pick(cs) {
        &&& pick matches Some(p) && is_quality_pick(cs, p as int)
        &&& reason == Some(
            if speed_gated(cs, pick.unwrap() as int) {
                Reason::SpeedGatedQuality
            } else if spills(cs[pick.unwrap() as int]) {
                Reason::BestQualitySpilled
            } else {
                Reason::BestQualityResident
            },
        )
    } else if has_speed_pick(cs) {
        &&& pick matches Some(p) && is_speed_pick(cs, p as int)
        &&& reason == Some(Reason::FastestFits)
    } else {
        pick is None && reason is None
    }
}

fn any_speed_gated(cs: &Vec<Candidate>, best_q: u32) -> (r: bool)
    ensures
        r == exists|j: int| 0 <= j < cs@.len() && below_floor(cs@[j]) && cs@[j].quality > best_q,
{
    let mut i: usize = 0;
    while i < cs.len()
        invariant
            i <= cs@.len(),
            forall|j: int| 0 <= j < i ==> !(below_floor(cs@[j]) && cs@[j].quality > best_q),
        decreases cs@.len() - i,
    {
        let c = cs[i];
        let gated = match c.fits {
            Some((SpeedKey::Key(k), _)) => k < PLEASANT_FLOOR_KEY,
            _ => false,
        };
        if gated && c.quality > best_q {
            return true;
        }
        i = i + 1;
    }
    false
}

/// The pick among assessed models and the reason for it; see `pick_rule`.
pub fn pick(cs: &Vec<Candidate>) -> (r: (Option<usize>, Option<Reason>))
    ensures
        pick_rule(cs@, r.0, r.1),
{
    // 1. best quality that fits and clears the floor
    let mut best_q: u32 = 0;
    let mut pick: Option<usize> = None;
    let mut reason: Option<Reason> = None;
    let mut i: usize = 0;
    while i < cs.len()
        invariant
            i <= cs@.len(),
            forall|j: int| 0 <= j < i && pleasant(cs@[j]) ==> cs@[j].quality <= best_q,
            best_q == 0 ==> pick is None,
            match pick {
                Some(p) => {
                    &&& p < i
                    &&& pleasant(cs@[p as int])
                    &&& cs@[p as int].quality == best_q
                    &&& best_q > 0
                    &&& forall|j: int| 0 <= j < p && pleasant(cs@[j]) ==> cs@[j].quality < best_q
                    &&& reason == Some(
                        if spills(cs@[p as int]) {
                            Reason::BestQualitySpilled
                        } else {
                            Reason::BestQualityResident
                        },
                    )
                },
                None => reason is None && best_q == 0,
            },
        decreases cs@.len() - i,
    {
        let c = cs[i];
        match c.fits {
            Some((SpeedKey::Key(k), spilled)) => {
                if k >= PLEASANT_FLOOR_KEY && c.quality > best_q {
                    best_q = c.quality;
                    pick = Some(i);
                    reason = Some(
                        if spilled {
                            Reason::BestQualitySpilled
                        } else {
                            Reason::BestQualityResident
                        },
                    );
                }
            },
            _ => {},
        }
        i = i + 1;
    }
    if pick.is_some() {
        if any_speed_gated(cs, best_q) {
            reason = Some(Reason::SpeedGatedQuality);
        }
        return (pick, reason);
    }
    assert(!has_quality_pick(cs@));
    // 2. fastest thing that fits at all
    let mut best_speed: u64 = 0;
    let mut i: usize = 0;
    while i < cs.len()
        invariant
            i <= cs@.len(),
            forall|j: int| 0 <= j < i ==> speed_of(cs@[j]) <= best_speed,
            match pick {
                Some(p) => {
                    &&& p < i
                    &&& speed_of(cs@[p as int]) == best_speed
                    &&& best_speed > 0
                    &&& forall|j: int| 0 <= j < p ==> speed_of(cs@[j]) < best_speed
                    &&& reason == Some(Reason::FastestFits)
                },
                None => reason is None && best_speed == 0,
            },
        decreases cs@.len() - i,
    {
        let c = cs[i];
        match c.fits {
            Some((SpeedKey::Key(k), _)) => {
                if k > best_speed {
                    best_speed = k;
                    pick = Some(i);
                    reason = Some(Reason::FastestFits);
                }
            },
            _ => {},
        }
        i = i + 1;
    }
    (pick, reason)
}


/// The flag says where the resident bandwidth came from: it is set exactly
/// when the budget's resident bandwidth is a measured one, not a class value.
pub proof fn law_measured_flag(info: HardwareInfo)
    ensures
        budget_of(info).bandwidth_measured == (budget_of(info).resident_bandwidth_gb_s is Measured),
{
    if info.unified_memory {
        lemma_first_measured(info.gpus@);
    }
}

/// A discrete budget leaves max(2 GiB, 9%) of the VRAM to the desktop (all
/// of it when the VRAM is smaller), and 80% of RAM to MoE spill.
pub proof fn law_discrete_reserve(info: HardwareInfo)
    requires
        budget_defined(info),
        !info.unified_memory,
        best_gpu(info.gpus@) is Some,
    ensures
        ({
            let vram = info.gpus@[best_gpu(info.gpus@).unwrap()].vram_mb.unwrap() * MIB;
            let b = budget_of(info);
            &&& b.kind == BudgetKind::DiscreteGpu
            &&& b.resident_bytes <= vram
            &&& vram - b.resident_bytes >= (if vram < 2 * GIB { vram } else { 2 * GIB })
            &&& vram - b.resident_bytes >= nine_percent(vram)
            &&& (b.resident_bytes == 0 || vram - b.resident_bytes == 2 * GIB || vram
                - b.resident_bytes == nine_percent(vram))
            &&& (b.resident_bytes == 0 ==> (vram <= 2 * GIB || vram <= nine_percent(vram)))
            &&& b.spill_extra_bytes == eighty_percent(info.ram_mb * MIB)
            &&& b.resident_bandwidth_gb_s == (match info.gpus@[best_gpu(
                info.gpus@,
            ).unwrap()].bandwidth_gb_s {
                Some(r) => Bandwidth::Measured(r),
                None => Bandwidth::Class(1000),
            })
        }),
{
    let vram = info.gpus@[best_gpu(info.gpus@).unwrap()].vram_mb.unwrap() * MIB;
    assert(nine_percent(vram) <= vram) by (nonlinear_arith)
        requires
            vram >= 0,
    ;
}

/// Outside a discrete GPU, a model may occupy 80% of RAM: on unified memory
/// and on a CPU-only machine, a fifth stays with the OS.
pub proof fn law_os_keeps_a_fifth(info: HardwareInfo)
    requires
        budget_defined(info),
        info.unified_memory || best_gpu(info.gpus@) is None,
    ensures
        budget_of(info).resident_bytes == eighty_percent(info.ram_mb * MIB),
        !info.unified_memory ==> budget_of(info).resident_bandwidth_gb_s == Bandwidth::Class(
            budget_of(info).host_bandwidth_gb_s,
        ),
        info.unified_memory ==> budget_of(info).resident_bandwidth_gb_s == (if exists|j: int|
            0 <= j < info.gpus@.len() && info.gpus@[j].bandwidth_gb_s is Some {
            Bandwidth::Measured(
                info.gpus@[choose|j: int|
                    0 <= j < info.gpus@.len() && info.gpus@[j].bandwidth_gb_s is Some && forall|
                        l: int,
                    |
                        0 <= l < j ==> info.gpus@[l].bandwidth_gb_s is None].bandwidth_gb_s.unwrap(),
            )
        } else {
            Bandwidth::Class(210)
        }),
        5 * budget_of(info).resident_bytes <= 4 * (info.ram_mb * MIB),
        budget_of(info).spill_extra_bytes == 0,
{
    lemma_first_measured(info.gpus@);
    if info.unified_memory {
        if let Some(i) = first_measured(info.gpus@) {
            let c = choose|j: int|
                0 <= j < info.gpus@.len() && info.gpus@[j].bandwidth_gb_s is Some && forall|l: int|
                    0 <= l < j ==> info.gpus@[l].bandwidth_gb_s is None;
            assert(0 <= i < info.gpus@.len() && info.gpus@[i].bandwidth_gb_s is Some && forall|
                l: int,
            | 0 <= l < i ==> info.gpus@[l].bandwidth_gb_s is None);
            if c < i {
            } else if c > i {
                assert(info.gpus@[i].bandwidth_gb_s is None);
            }
            assert(c == i);
        }
    }
    let ram = info.ram_mb * MIB;
    assert(5 * eighty_percent(ram) <= 4 * ram) by (nonlinear_arith)
        requires
            ram >= 0,
    ;
}

/// A model spills only on a discrete GPU, only when it decodes from a small
/// slice of its weights, and only when it does not fit resident.
pub proof fn law_spill_is_discrete_moe(size_bytes: Option<u64>, sparse_decode: bool, budget: Budget)
    requires
        fit_of(size_bytes, sparse_decode, budget) == Fit::Spilled,
    ensures
        budget.kind == BudgetKind::DiscreteGpu,
        sparse_decode,
        need_of(size_bytes.unwrap()) > budget.resident_bytes,
{
}

/// More room never hurts: a model that fits a budget still fits one of the
/// same kind with at least as many resident bytes and at least as many
/// resident plus spill bytes; a resident fit stays resident.
pub proof fn law_fit_monotone(size_bytes: Option<u64>, sparse_decode: bool, small: Budget, large: Budget)
    requires
        large.kind == small.kind,
        large.resident_bytes >= small.resident_bytes,
        large.resident_bytes + large.spill_extra_bytes >= small.resident_bytes
            + small.spill_extra_bytes,
    ensures
        fit_of(size_bytes, sparse_decode, small) == Fit::Resident ==> fit_of(
            size_bytes,
            sparse_decode,
            large,
        ) == Fit::Resident,
        fit_of(size_bytes, sparse_decode, small) == Fit::Spilled ==> (fit_of(
            size_bytes,
            sparse_decode,
            large,
        ) == Fit::Resident || fit_of(size_bytes, sparse_decode, large) == Fit::Spilled),
{
}

/// The reason is always reported: there is a reason exactly when there is
/// a pick.
pub proof fn law_reason_iff_pick(cs: Seq<Candidate>, p: Option<usize>, r: Option<Reason>)
    requires
        pick_rule(cs, p, r),
    ensures
        r is Some <==> p is Some,
{
}

/// The pick always fits the machine.
pub proof fn law_pick_fits(cs: Seq<Candidate>, p: Option<usize>, r: Option<Reason>)
    requires
        pick_rule(cs, p, r),
        p is Some,
    ensures
        p.unwrap() < cs.len(),
        cs[p.unwrap() as int].fits is Some,
{
}

/// When nothing fits, nothing is picked.
pub proof fn law_nothing_fits_no_pick(cs: Seq<Candidate>, p: Option<usize>, r: Option<Reason>)
    requires
        pick_rule(cs, p, r),
        forall|j: int| 0 <= j < cs.len() ==> cs[j].fits is None,
    ensures
        p is None,
        r is None,
{
    assert(!has_quality_pick(cs));
    assert(!has_speed_pick(cs));
}

/// Why not the bigger model: every fitting model of higher quality than a
/// pick made by quality decodes below the pleasant floor (or has no ordered
/// speed), and the reason says so exactly when such a model exists.
pub proof fn law_better_models_are_too_slow(
    cs: Seq<Candidate>,
    p: Option<usize>,
    r: Option<Reason>,
    j: int,
)
    requires
        pick_rule(cs, p, r),
        r != Some(Reason::FastestFits),
        p is Some,
        0 <= j < cs.len(),
        cs[j].fits is Some,
        cs[j].quality > cs[p.unwrap() as int].quality,
    ensures
        !pleasant(cs[j]),
        below_floor(cs[j]) ==> r == Some(Reason::SpeedGatedQuality),
{
}


/// The overhead is 12% of the size rounded down, but never below 768 MiB.
pub proof fn law_overhead_share(size: int)
    requires
        size >= 0,
    ensures
        overhead_allowance(size) >= 805306368,
        100 * overhead_allowance(size) >= 12 * size - 99,
        overhead_allowance(size) == 805306368 || (100 * overhead_allowance(size) <= 12 * size
            && 12 * size < 100 * overhead_allowance(size) + 100),
{
    assert(100 * (size * 12 / 100) <= 12 * size < 100 * (size * 12 / 100) + 100) by (nonlinear_arith)
        requires
            size >= 0,
    ;
}

/// The fit of a model, in terms of its weights plus overhead (`need`): it
/// fits resident exactly when `need` fits the resident bytes; it spills
/// exactly when it does not fit resident but `need` fits resident plus spill
/// bytes on a discrete GPU and it is sparse; it is too big otherwise; a model
/// of unknown size is reported as such.
pub proof fn law_fit_by_need(size_bytes: Option<u64>, sparse_decode: bool, budget: Budget)
    ensures
        (fit_of(size_bytes, sparse_decode, budget) == Fit::UnknownSize) == (size_bytes is None),
        size_bytes matches Some(size) ==> ({
            let need = size + overhead_allowance(size as int);
            let fit = fit_of(size_bytes, sparse_decode, budget);
            &&& (fit == Fit::Resident) == (need <= budget.resident_bytes)
            &&& (fit == Fit::Spilled) == (need > budget.resident_bytes && budget.kind
                == BudgetKind::DiscreteGpu && sparse_decode && need <= budget.resident_bytes
                + budget.spill_extra_bytes)
            &&& (fit == Fit::TooBig) == (need > budget.resident_bytes && !(budget.kind
                == BudgetKind::DiscreteGpu && sparse_decode && need <= budget.resident_bytes
                + budget.spill_extra_bytes))
        }),
{
}

/// Every budget, whatever its kind, carries the class bandwidth of the
/// machine's RAM kind as its host bandwidth; its kind is unified memory
/// exactly on unified machines, a discrete GPU exactly when some GPU is
/// dedicated, working and of known VRAM, and CPU only otherwise.
pub proof fn law_budget_kind_and_host(info: HardwareInfo)
    ensures
        budget_of(info).host_bandwidth_gb_s == host_class_bandwidth(opt_string(info.ram_kind)),
        (budget_of(info).kind == BudgetKind::UnifiedMemory) == info.unified_memory,
        (budget_of(info).kind == BudgetKind::DiscreteGpu) == (!info.unified_memory && exists|j: int|
            0 <= j < info.gpus@.len() && !info.gpus@[j].shared && info.gpus@[j].state
                == GpuState::Working && info.gpus@[j].vram_mb is Some),
        budget_of(info).driver_missing_nvidia == exists|j: int|
            0 <= j < info.gpus@.len() && info.gpus@[j].state == GpuState::DriverMissing,
{
    lemma_best_gpu(info.gpus@);
    if !info.unified_memory {
        if best_gpu(info.gpus@) is None {
            assert(forall|j: int|
                0 <= j < info.gpus@.len() ==> !(!info.gpus@[j].shared && info.gpus@[j].state
                    == GpuState::Working && info.gpus@[j].vram_mb is Some));
        } else {
            let b = best_gpu(info.gpus@).unwrap();
            assert(!info.gpus@[b].shared && info.gpus@[b].state == GpuState::Working
                && info.gpus@[b].vram_mb is Some);
        }
    }
}

/// Host RAM classes: a kind starting with LPDDR5 runs at 90 GB/s, DDR5 at 65,
/// LPDDR4 at 50, DDR4 at 45; any other kind, or none, at 80.
pub proof fn law_host_classes(k: Seq<char>)
    ensures
        (k.len() >= 6 && k.subrange(0, 6) == seq!['L', 'P', 'D', 'D', 'R', '5'])
            ==> host_class_bandwidth(Some(k)) == 90,
        (k.len() >= 4 && k.subrange(0, 4) == seq!['D', 'D', 'R', '5'])
            ==> host_class_bandwidth(Some(k)) == 65,
        (k.len() >= 6 && k.subrange(0, 6) == seq!['L', 'P', 'D', 'D', 'R', '4'])
            ==> host_class_bandwidth(Some(k)) == 50,
        (k.len() >= 4 && k.subrange(0, 4) == seq!['D', 'D', 'R', '4'])
            ==> host_class_bandwidth(Some(k)) == 45,
        !(k.len() >= 6 && k.subrange(0, 6) == seq!['L', 'P', 'D', 'D', 'R', '5']) && !(k.len() >= 4
            && k.subrange(0, 4) == seq!['D', 'D', 'R', '5']) && !(k.len() >= 6 && k.subrange(0, 6)
            == seq!['L', 'P', 'D', 'D', 'R', '4']) && !(k.len() >= 4 && k.subrange(0, 4) == seq![
            'D',
            'D',
            'R',
            '4',
        ]) ==> host_class_bandwidth(Some(k)) == 80,
        host_class_bandwidth(None) == 80,
{
    reveal_strlit("LPDDR5");
    reveal_strlit("DDR5");
    reveal_strlit("LPDDR4");
    reveal_strlit("DDR4");
    assert("LPDDR5"@ =~= seq!['L', 'P', 'D', 'D', 'R', '5']);
    assert("DDR5"@ =~= seq!['D', 'D', 'R', '5']);
    assert("LPDDR4"@ =~= seq!['L', 'P', 'D', 'D', 'R', '4']);
    assert("DDR4"@ =~= seq!['D', 'D', 'R', '4']);
    if k.len() >= 6 && k.subrange(0, 6) == seq!['L', 'P', 'D', 'D', 'R', '4'] {
        assert(k.subrange(0, 6)[5] == '4');
        assert(k.subrange(0, 4)[0] == 'L');
    }
    if k.len() >= 4 && k.subrange(0, 4) == seq!['D', 'D', 'R', '4'] {
        assert(k.subrange(0, 4)[3] == '4');
        assert(k[0] == 'D');
        if k.len() >= 6 {
            assert(k.subrange(0, 6)[0] == 'D');
        }
    }
    if k.len() >= 4 && k.subrange(0, 4) == seq!['D', 'D', 'R', '5'] {
        assert(k[0] == 'D');
        if k.len() >= 6 {
            assert(k.subrange(0, 6)[0] == 'D');
        }
    }
}

/// 80% and 9% are rounded down: what they leave out is less than one unit
/// of their denominators.
pub proof fn law_percent_shares(x: int)
    requires
        x >= 0,
    ensures
        5 * eighty_percent(x) <= 4 * x < 5 * eighty_percent(x) + 5,
        100 * nine_percent(x) <= 9 * x < 100 * nine_percent(x) + 100,
{
    assert(5 * (x * 4 / 5) <= 4 * x < 5 * (x * 4 / 5) + 5) by (nonlinear_arith)
        requires
            x >= 0,
    ;
    assert(100 * (x * 9 / 100) <= 9 * x < 100 * (x * 9 / 100) + 100) by (nonlinear_arith)
        requires
            x >= 0,
    ;
}

/// A pick by quality fits with a speed at or above the pleasant floor, its
/// reason says whether it spills, and no model that fits at or above the
/// floor has a higher quality. A pick by speed is made only when no model of
/// positive quality fits at or above the floor, and no fitting model is faster.
pub proof fn law_pick_by_keys(cs: Seq<Candidate>, p: Option<usize>, r: Option<Reason>)
    requires
        pick_rule(cs, p, r),
    ensures
        (r == Some(Reason::BestQualityResident) || r == Some(Reason::BestQualitySpilled) || r
            == Some(Reason::SpeedGatedQuality)) ==> ({
            let i = p.unwrap() as int;
            &&& 0 <= i < cs.len()
            &&& cs[i].fits matches Some((SpeedKey::Key(k), sp)) && k >= PLEASANT_FLOOR_KEY && (r
                == Some(Reason::BestQualitySpilled) ==> sp) && (r == Some(
                Reason::BestQualityResident,
            ) ==> !sp)
            &&& forall|j: int|
                #![trigger cs[j]]
                0 <= j < cs.len() ==> (cs[j].fits matches Some((SpeedKey::Key(kj), _)) && kj
                    >= PLEASANT_FLOOR_KEY ==> cs[j].quality <= cs[i].quality)
        }),
        r == Some(Reason::FastestFits) ==> ({
            let i = p.unwrap() as int;
            &&& 0 <= i < cs.len()
            &&& cs[i].fits matches Some((SpeedKey::Key(k), _)) && k > 0 && forall|j: int|
                #![trigger cs[j]]
                0 <= j < cs.len() ==> (cs[j].fits matches Some((SpeedKey::Key(kj), _)) ==> kj <= k
                    && (kj < PLEASANT_FLOOR_KEY || cs[j].quality == 0))
        }),
{
    if r == Some(Reason::FastestFits) {
        let i = p.unwrap() as int;
        assert forall|j: int| #![trigger cs[j]] 0 <= j < cs.len() implies (cs[j].fits matches Some(
            (SpeedKey::Key(kj), _),
        ) ==> kj <= speed_of(cs[i]) && (kj < PLEASANT_FLOOR_KEY || cs[j].quality == 0)) by {
            if let Some((SpeedKey::Key(kj), _)) = cs[j].fits {
                assert(speed_of(cs[j]) == kj);
                if kj >= PLEASANT_FLOOR_KEY && cs[j].quality > 0 {
                    assert(pleasant(cs[j]));
                    assert(has_quality_pick(cs));
                }
            }
        }
    }
}

/// The pick, read off the speed keys directly. When some model of positive
/// quality fits at or above the floor, the pick is the first such model of
/// highest quality, and the reason is speed-gated exactly when a model of
/// higher quality fits below the floor. Otherwise, when some model fits with
/// a positive key, the pick is the first model with the highest key.
/// Otherwise nothing is picked.
pub proof fn law_pick_first_of_best(cs: Seq<Candidate>, p: Option<usize>, r: Option<Reason>)
    requires
        pick_rule(cs, p, r),
    ensures
        (exists|j: int|
            #![trigger cs[j]]
            0 <= j < cs.len() && cs[j].quality > 0 && (cs[j].fits matches Some(
                (SpeedKey::Key(kj), _),
            ) && kj >= PLEASANT_FLOOR_KEY)) ==> ({
            let i = p.unwrap() as int;
            &&& p is Some
            &&& 0 <= i < cs.len()
            &&& forall|j: int|
                #![trigger cs[j]]
                0 <= j < i ==> !(cs[j].fits matches Some((SpeedKey::Key(kj), _)) && kj
                    >= PLEASANT_FLOOR_KEY && cs[j].quality >= cs[i].quality)
            &&& (r == Some(Reason::SpeedGatedQuality)) == (exists|j: int|
                #![trigger cs[j]]
                0 <= j < cs.len() && cs[j].quality > cs[i].quality && (cs[j].fits matches Some(
                    (SpeedKey::Key(kj), _),
                ) && kj < PLEASANT_FLOOR_KEY))
        }),
        r == Some(Reason::FastestFits) ==> ({
            let i = p.unwrap() as int;
            &&& cs[i].fits matches Some((SpeedKey::Key(k), _)) && forall|j: int|
                #![trigger cs[j]]
                0 <= j < i ==> !(cs[j].fits matches Some((SpeedKey::Key(kj), _)) && kj >= k)
        }),
        (forall|j: int|
            #![trigger cs[j]]
            0 <= j < cs.len() ==> !(cs[j].fits matches Some((SpeedKey::Key(kj), _)) && kj > 0))
            ==> p is None && r is None,
{
    if exists|j: int|
        #![trigger cs[j]]
        0 <= j < cs.len() && cs[j].quality > 0 && (cs[j].fits matches Some((SpeedKey::Key(kj), _))
            && kj >= PLEASANT_FLOOR_KEY) {
        let j = choose|j: int|
            #![trigger cs[j]]
            0 <= j < cs.len() && cs[j].quality > 0 && (cs[j].fits matches Some(
                (SpeedKey::Key(kj), _),
            ) && kj >= PLEASANT_FLOOR_KEY);
        assert(pleasant(cs[j]));
        assert(has_quality_pick(cs));
        let i = p.unwrap() as int;
        assert forall|j: int|
            #![trigger cs[j]]
            0 <= j < i implies !(cs[j].fits matches Some((SpeedKey::Key(kj), _)) && kj
                >= PLEASANT_FLOOR_KEY && cs[j].quality >= cs[i].quality) by {
            if let Some((SpeedKey::Key(kj), _)) = cs[j].fits {
                if kj >= PLEASANT_FLOOR_KEY {
                    assert(pleasant(cs[j]));
                }
            }
        }
        if r == Some(Reason::SpeedGatedQuality) {
            let g = choose|g: int|
                0 <= g < cs.len() && below_floor(cs[g]) && cs[g].quality > cs[i].quality;
            assert(cs[g].quality > cs[i].quality && (cs[g].fits matches Some((SpeedKey::Key(kg), _))
                && kg < PLEASANT_FLOOR_KEY));
        } else {
            assert forall|g: int|
                #![trigger cs[g]]
                0 <= g < cs.len() && cs[g].quality > cs[i].quality implies !(cs[g].fits matches Some(
                    (SpeedKey::Key(kg), _),
                ) && kg < PLEASANT_FLOOR_KEY) by {
                if let Some((SpeedKey::Key(kg), _)) = cs[g].fits {
                    if kg < PLEASANT_FLOOR_KEY {
                        assert(below_floor(cs[g]));
                    }
                }
            }
        }
    }
    if r == Some(Reason::FastestFits) {
        let i = p.unwrap() as int;
        assert forall|j: int|
            #![trigger cs[j]]
            0 <= j < i implies !(cs[j].fits matches Some((SpeedKey::Key(kj), _)) && kj
                >= speed_of(cs[i])) by {
            if let Some((SpeedKey::Key(kj), _)) = cs[j].fits {
                assert(speed_of(cs[j]) == kj);
            }
        }
    }
    if forall|j: int|
        #![trigger cs[j]]
        0 <= j < cs.len() ==> !(cs[j].fits matches Some((SpeedKey::Key(kj), _)) && kj > 0) {
        assert forall|j: int| 0 <= j < cs.len() implies !(pleasant(cs[j]) && cs[j].quality > 0)
            && speed_of(cs[j]) == 0 by {
            assert(!(cs[j].fits matches Some((SpeedKey::Key(kj), _)) && kj > 0));
            if let Some((SpeedKey::Key(kj), _)) = cs[j].fits {
                assert(kj == 0);
            }
        }
    }
}

} // verus!
