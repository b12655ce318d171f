//! The instance configuration: the typed record that describes one guest
//! machine, the pure parser that reads it from a configuration document, and
//! the serializer that writes one back.
use vstd::prelude::*;
use vstd::string::StringSliceAdditionalSpecFns;
use crate::config_model::{spec_get, ConfigTable, ConfigValue, SpecConfigValue};
use crate::error::VoreError;
use crate::pci::PCIAddress;
use crate::text::{
    lower_and_strip_spaces, parse_u64_dec, spec_lower_bytes, spec_parse_u64_dec,
    spec_strip_spaces,
};

verus! {

// ---------------------------------------------------------------------------
// The configuration record
// ---------------------------------------------------------------------------

#[derive(Clone, Copy, Debug, PartialEq, Eq, Structural)]
pub struct CpuConfig {
    pub amount: u64,
    pub cores: u64,
    pub threads: u64,
    pub dies: u64,
    pub sockets: u64,
}

impl CpuConfig {
    pub fn default() -> (r: CpuConfig)
        ensures
            r == spec_default_cpu(),
    {
        CpuConfig { amount: 2, cores: 1, threads: 2, dies: 1, sockets: 1 }
    }
}

pub open spec fn spec_default_cpu() -> CpuConfig {
    CpuConfig { amount: 2, cores: 1, threads: 2, dies: 1, sockets: 1 }
}

#[derive(Clone, Copy, Debug, PartialEq, Eq, Structural)]
pub struct UefiConfig {
    pub enabled: bool,
}

#[derive(Clone, Copy, Debug, PartialEq, Eq, Structural)]
pub struct PulseConfig {
    pub enabled: bool,
}

#[derive(Clone, Debug, PartialEq)]
pub struct ScreamConfig {
    pub enabled: bool,
    pub mem_path: String,
    pub buffer_size: u64,
}

pub struct ScreamConfigView {
    pub enabled: bool,
    pub mem_path: Seq<char>,
    pub buffer_size: u64,
}

impl View for ScreamConfig {
    type V = ScreamConfigView;

    open spec fn view(&self) -> ScreamConfigView {
        ScreamConfigView {
            enabled: self.enabled,
            mem_path: self.mem_path@,
            buffer_size: self.buffer_size,
        }
    }
}

#[derive(Clone, Debug, PartialEq)]
pub struct SpiceConfig {
    pub enabled: bool,
    pub socket_path: String,
}

pub struct SpiceConfigView {
    pub enabled: bool,
    pub socket_path: Seq<char>,
}

impl View for SpiceConfig {
    type V = SpiceConfigView;

    open spec fn view(&self) -> SpiceConfigView {
        SpiceConfigView { enabled: self.enabled, socket_path: self.socket_path@ }
    }
}

#[derive(Clone, Debug, PartialEq)]
pub struct LookingGlassConfig {
    pub enabled: bool,
    pub mem_path: String,
    pub buffer_size: u64,
    pub width: u64,
    pub height: u64,
    pub bit_depth: u64,
}

pub struct LookingGlassConfigView {
    pub enabled: bool,
    pub mem_path: Seq<char>,
    pub buffer_size: u64,
    pub width: u64,
    pub height: u64,
    pub bit_depth: u64,
}

impl View for LookingGlassConfig {
    type V = LookingGlassConfigView;

    open spec fn view(&self) -> LookingGlassConfigView {
        LookingGlassConfigView {
            enabled: self.enabled,
            mem_path: self.mem_path@,
            buffer_size: self.buffer_size,
            width: self.width,
            height: self.height,
            bit_depth: self.bit_depth,
        }
    }
}

#[derive(Clone, Debug, PartialEq)]
pub struct DiskConfig {
    pub disk_type: String,
    pub preset: String,
    pub path: String,
    pub read_only: bool,
}

pub struct DiskConfigView {
    pub disk_type: Seq<char>,
    pub preset: Seq<char>,
    pub path: Seq<char>,
    pub read_only: bool,
}

impl View for DiskConfig {
    type V = DiskConfigView;

    open spec fn view(&self) -> DiskConfigView {
        DiskConfigView {
            disk_type: self.disk_type@,
            preset: self.preset@,
            path: self.path@,
            read_only: self.read_only,
        }
    }
}

#[derive(Clone, Copy, Debug, PartialEq, Eq, Structural)]
pub struct VfioConfig {
    pub address: PCIAddress,
    pub vendor: Option<u32>,
    pub device: Option<u32>,
    pub index: u32,
    pub graphics: bool,
    pub multifunction: bool,
}

/// One PCI device of the host, as its enumeration reports it.
#[derive(Clone, Copy, Debug, PartialEq, Eq, Structural)]
pub struct PciDevice {
    pub address: PCIAddress,
    pub vendor: u32,
    pub device: u32,
}

#[derive(Clone, Debug, PartialEq)]
pub struct InstanceConfig {
    pub name: String,
    pub arch: String,
    pub chipset: String,
    pub kvm: bool,
    pub memory: u64,
    pub cpu: CpuConfig,
    pub disks: Vec<DiskConfig>,
    pub uefi: UefiConfig,
    pub vfio: Vec<VfioConfig>,
    pub looking_glass: LookingGlassConfig,
    pub scream: ScreamConfig,
    pub pulse: PulseConfig,
    pub spice: SpiceConfig,
}

pub struct InstanceConfigView {
    pub name: Seq<char>,
    pub arch: Seq<char>,
    pub chipset: Seq<char>,
    pub kvm: bool,
    pub memory: u64,
    pub cpu: CpuConfig,
    pub disks: Seq<DiskConfigView>,
    pub uefi: UefiConfig,
    pub vfio: Seq<VfioConfig>,
    pub looking_glass: LookingGlassConfigView,
    pub scream: ScreamConfigView,
    pub pulse: PulseConfig,
    pub spice: SpiceConfigView,
}

impl View for InstanceConfig {
    type V = InstanceConfigView;

    open spec fn view(&self) -> InstanceConfigView {
        InstanceConfigView {
            name: self.name@,
            arch: self.arch@,
            chipset: self.chipset@,
            kvm: self.kvm,
            memory: self.memory,
            cpu: self.cpu,
            disks: self.disks@.map_values(|d: DiskConfig| d@),
            uefi: self.uefi,
            vfio: self.vfio@,
            looking_glass: self.looking_glass@,
            scream: self.scream@,
            pulse: self.pulse,
            spice: self.spice@,
        }
    }
}

// ---------------------------------------------------------------------------
// Size expressions
// ---------------------------------------------------------------------------

/// The size string normalised: lowercased, spaces removed, one trailing `b`
/// dropped.
pub open spec fn spec_size_normal(s: Seq<u8>) -> Seq<u8> {
    let n0 = spec_strip_spaces(spec_lower_bytes(s));
    if n0.len() >= 1 && n0.last() == 98 {
        n0.drop_last()
    } else {
        n0
    }
}

/// The factor a unit letter stands for, in mebibytes; `k` and unknown letters
/// have none.
pub open spec fn spec_size_modifier(b: u8) -> Option<u64> {
    if b == 109 {
        Some(1u64)
    } else if b == 103 {
        Some(1024u64)
    } else if b == 116 {
        Some(1048576u64)
    } else {
        None
    }
}

pub open spec fn spec_is_lower_alpha(b: u8) -> bool {
    97 <= b <= 122
}

/// What a size expression means: a number with an optional unit letter, `m`
/// and larger only.
pub open spec fn spec_parse_size(s: Seq<u8>) -> Option<u64> {
    let n = spec_size_normal(s);
    if n.len() >= 1 && spec_is_lower_alpha(n.last()) {
        match spec_size_modifier(n.last()) {
            None => None,
            Some(m) => {
                let digits = n.drop_last();
                match spec_parse_u64_dec(digits) {
                    Some(v) => if v * m <= u64::MAX {
                        Some((v * m) as u64)
                    } else {
                        None
                    },
                    None => None,
                }
            },
        }
    } else {
        spec_parse_u64_dec(n)
    }
}

/// A size was refused for naming kilobytes.
pub open spec fn spec_size_kb_rejected(s: Seq<u8>) -> bool {
    let n = spec_size_normal(s);
    n.len() >= 1 && n.last() == 107
}

/// Parses a size expression: a decimal number and an optional unit letter
/// (`m`, `g`, `t`, each with an optional `b`), case-insensitive, spaces
/// ignored. Kilobytes and smaller are refused.
pub fn parse_size(input: &str) -> (r: Result<u64, VoreError>)
    ensures
        spec_parse_size(input.spec_bytes()) is Some ==> r is Ok && r->Ok_0 == spec_parse_size(
            input.spec_bytes(),
        )->Some_0,
        spec_parse_size(input.spec_bytes()) is None ==> r is Err,
        r is Err ==> spec_parse_size(input.spec_bytes()) is None,
        r is Err && spec_size_kb_rejected(input.spec_bytes()) ==> r->Err_0 is SizeTooSmall,
        r is Err && !spec_size_kb_rejected(input.spec_bytes()) ==> (r matches Err(
            VoreError::InvalidSize { input: orig },
        ) && orig@ == input@),
{
    let bytes = input.as_bytes();
    let mut n = lower_and_strip_spaces(bytes);
    if n.len() >= 1 && n[n.len() - 1] == 98 {
        let _ = n.pop();
    }
    proof {
        assert(n@ == spec_size_normal(input.spec_bytes()));
    }
    let len = n.len();
    if len >= 1 {
        let last = n[len - 1];
        if 97 <= last && last <= 122 {
            if last == 107 {
                return Err(VoreError::SizeTooSmall);
            }
            let modifier: u64 = if last == 109 {
                1
            } else if last == 103 {
                1024
            } else if last == 116 {
                1048576
            } else {
                return Err(VoreError::InvalidSize { input: input.to_owned() });
            };
            let _ = n.pop();
            match parse_u64_dec(n.as_slice()) {
                None => Err(VoreError::InvalidSize { input: input.to_owned() }),
                Some(v) => {
                    if v <= u64::MAX / modifier {
                        Ok(v * modifier)
                    } else {
                        Err(VoreError::InvalidSize { input: input.to_owned() })
                    }
                },
            }
        } else {
            match parse_u64_dec(n.as_slice()) {
                None => Err(VoreError::InvalidSize { input: input.to_owned() }),
                Some(v) => Ok(v),
            }
        }
    } else {
        proof {
            assert(spec_parse_u64_dec(n@) is None);
        }
        Err(VoreError::InvalidSize { input: input.to_owned() })
    }
}

// ---------------------------------------------------------------------------
// CPU topology
// ---------------------------------------------------------------------------

/// One topology field read from the table: absent keeps the old value, a
/// non-negative integer replaces it, anything else is refused.
pub open spec fn spec_cpu_field(
    old: u64,
    t: Seq<(Seq<char>, SpecConfigValue)>,
    key: Seq<char>,
) -> Option<u64> {
    match spec_get(t, key) {
        None => Some(old),
        Some(SpecConfigValue::Int(v)) => if v >= 0 {
            Some(v as u64)
        } else {
            None
        },
        Some(_) => None,
    }
}

pub open spec fn spec_cpu_product(s: u64, d: u64, c: u64, t: u64) -> nat {
    (s as nat) * (d as nat) * (c as nat) * (t as nat)
}

/// Whether any explicit sub-field stands beside `amount`.
pub open spec fn spec_cpu_has_subfield(t: Seq<(Seq<char>, SpecConfigValue)>) -> bool {
    spec_get(t, "cores"@) is Some || spec_get(t, "sockets"@) is Some || spec_get(t, "dies"@)
        is Some || spec_get(t, "threads"@) is Some
}

/// The topology rules applied to a table: when `amount` is absent it is the
/// product; when given with sub-fields it must equal the product; when given
/// alone an even total splits into two threads per core.
pub open spec fn spec_cpu_apply(old: CpuConfig, t: Seq<(Seq<char>, SpecConfigValue)>) -> Option<
    CpuConfig,
> {
    match (
        spec_cpu_field(old.amount, t, "amount"@),
        spec_cpu_field(old.cores, t, "cores"@),
        spec_cpu_field(old.threads, t, "threads"@),
        spec_cpu_field(old.dies, t, "dies"@),
        spec_cpu_field(old.sockets, t, "sockets"@),
    ) {
        (Some(amount), Some(cores), Some(threads), Some(dies), Some(sockets)) => {
            let p = spec_cpu_product(sockets, dies, cores, threads);
            if spec_get(t, "amount"@) is None {
                if p > u64::MAX {
                    None
                } else {
                    Some(
                        CpuConfig { amount: p as u64, cores, threads, dies, sockets },
                    )
                }
            } else if spec_cpu_has_subfield(t) {
                if p > u64::MAX || amount != p {
                    None
                } else {
                    Some(CpuConfig { amount, cores, threads, dies, sockets })
                }
            } else {
                if amount % 2 == 0 {
                    Some(
                        CpuConfig { amount, cores: amount / 2, threads, dies, sockets },
                    )
                } else {
                    Some(CpuConfig { amount, cores: amount, threads: 1u64, dies, sockets })
                }
            }
        },
        _ => None,
    }
}

impl CpuConfig {
    /// Applies a `[cpu]` table to this topology, enforcing the consistency
    /// rules between the total and the sub-fields.
    #[verifier::rlimit(60)]
    pub fn apply_table(&mut self, table: &ConfigTable) -> (r: Result<(), VoreError>)
        ensures
            (r is Ok) == (spec_cpu_apply(*old(self), table@) is Some),
            r is Ok ==> *final(self) == spec_cpu_apply(*old(self), table@)->Some_0,
            ({
                // when every field reads well and the declared total differs
                // from the product, the fault names both numbers
                let fa = spec_cpu_field(old(self).amount, table@, "amount"@);
                let fc = spec_cpu_field(old(self).cores, table@, "cores"@);
                let ft = spec_cpu_field(old(self).threads, table@, "threads"@);
                let fd = spec_cpu_field(old(self).dies, table@, "dies"@);
                let fs = spec_cpu_field(old(self).sockets, table@, "sockets"@);
                (fa is Some && fc is Some && ft is Some && fd is Some && fs is Some
                    && spec_get(table@, "amount"@) is Some && spec_cpu_has_subfield(table@)
                    && spec_cpu_product(fs->Some_0, fd->Some_0, fc->Some_0, ft->Some_0)
                    <= u64::MAX && fa->Some_0 != spec_cpu_product(
                    fs->Some_0,
                    fd->Some_0,
                    fc->Some_0,
                    ft->Some_0,
                )) ==> (r matches Err(
                    VoreError::CpuAmountMismatch {
                        calc,
                        sockets: es,
                        dies: ed,
                        cores: ec,
                        threads: et,
                        amount: ea,
                    },
                ) && calc == spec_cpu_product(fs->Some_0, fd->Some_0, fc->Some_0, ft->Some_0)
                    && es == fs->Some_0 && ed == fd->Some_0 && ec == fc->Some_0 && et
                    == ft->Some_0 && ea == fa->Some_0)
            }),
    {
        if let Some(amount) = table.get_u64("amount", "cpu.amount")? {
            self.amount = amount;
        }
        if let Some(cores) = table.get_u64("cores", "cpu.cores")? {
            self.cores = cores;
        }
        if let Some(threads) = table.get_u64("threads", "cpu.threads")? {
            self.threads = threads;
        }
        if let Some(dies) = table.get_u64("dies", "cpu.dies")? {
            self.dies = dies;
        }
        if let Some(sockets) = table.get_u64("sockets", "cpu.sockets")? {
            self.sockets = sockets;
        }
        let has_amount = table.has_key("amount");
        let has_sub = table.has_key("cores") || table.has_key("sockets") || table.has_key("dies")
            || table.has_key("threads");
        if !has_amount || has_sub {
            // the product, watching for overflow
            let ghost sp = spec_cpu_product(self.sockets, self.dies, self.cores, self.threads);
            let product: Option<u64>;
            if self.sockets == 0 || self.dies == 0 || self.cores == 0 || self.threads == 0 {
                product = Some(0);
                proof {
                    let za = self.sockets as nat;
                    let zb = self.dies as nat;
                    let zc = self.cores as nat;
                    let zd = self.threads as nat;
                    assert(za * zb * zc * zd == 0) by (nonlinear_arith)
                        requires
                            za == 0 || zb == 0 || zc == 0 || zd == 0,
                    {}
                    assert(sp == za * zb * zc * zd);
                }
            } else {
                let s = self.sockets;
                let d = self.dies;
                let c = self.cores;
                let t = self.threads;
                if s > u64::MAX / d {
                    proof {
                        lemma_mul_exceeds(s as nat, d as nat, u64::MAX as nat);
                        lemma_mul_grows((s as nat) * (d as nat), c as nat);
                        lemma_mul_grows((s as nat) * (d as nat) * (c as nat), t as nat);
                    }
                    product = None;
                    proof {
                        assert(sp > u64::MAX);
                    }
                } else {
                    proof {
                        lemma_mul_fits(s as nat, d as nat, u64::MAX as nat);
                    }
                    let p1 = s * d;
                    proof {
                        lemma_mul_grows(s as nat, d as nat);
                    }
                    if c > u64::MAX / p1 {
                        proof {
                            lemma_mul_exceeds(c as nat, p1 as nat, u64::MAX as nat);
                            lemma_mul_grows((s as nat) * (d as nat) * (c as nat), t as nat);
                        }
                        product = None;
                        proof {
                            assert(sp > u64::MAX);
                        }
                    } else {
                        proof {
                            lemma_mul_fits(c as nat, p1 as nat, u64::MAX as nat);
                        }
                        let p2 = p1 * c;
                        proof {
                            lemma_mul_grows(p1 as nat, c as nat);
                        }
                        if t > u64::MAX / p2 {
                            proof {
                                lemma_mul_exceeds(t as nat, p2 as nat, u64::MAX as nat);
                            }
                            product = None;
                            proof {
                                assert(sp > u64::MAX);
                            }
                        } else {
                            proof {
                                lemma_mul_fits(t as nat, p2 as nat, u64::MAX as nat);
                            }
                            product = Some(p2 * t);
                            proof {
                                assert((p2 * t) as nat == sp);
                            }
                        }
                    }
                }
            }
            proof {
                assert(product matches Some(p) ==> p as nat == sp);
                assert(product is None ==> sp > u64::MAX);
            }
            match product {
                None => {
                    return Err(VoreError::CpuAmountOverflow { amount: self.amount });
                },
                Some(p) => {
                    if !has_amount {
                        self.amount = p;
                    } else if self.amount != p {
                        return Err(
                            VoreError::CpuAmountMismatch {
                                calc: p,
                                sockets: self.sockets,
                                dies: self.dies,
                                cores: self.cores,
                                threads: self.threads,
                                amount: self.amount,
                            },
                        );
                    }
                },
            }
        } else {
            if self.amount % 2 == 0 {
                self.cores = self.amount / 2;
            } else {
                self.threads = 1;
                self.cores = self.amount;
            }
        }
        Ok(())
    }
}

/// `a * b` fits under the bound exactly when the checked step says so.
proof fn lemma_mul_fits(a: nat, b: nat, max: nat)
    requires
        b == 0 || a <= max / b,
    ensures
        a * b <= max,
        b * a <= max,
{
    assert(a * b == b * a) by (nonlinear_arith) {}
    if b > 0 {
        assert(a * b <= (max / b) * b) by (nonlinear_arith)
            requires
                a <= max / b,
                b > 0,
        {}
        assert((max / b) * b <= max) by (nonlinear_arith)
            requires
                b > 0,
        {}
    }
}

proof fn lemma_mul_exceeds(a: nat, b: nat, max: nat)
    requires
        b > 0,
        a > max / b,
    ensures
        a * b > max,
        b * a > max,
{
    assert(a * b == b * a) by (nonlinear_arith) {}
    assert(a * b >= (max / b + 1) * b) by (nonlinear_arith)
        requires
            a >= max / b + 1,
            b > 0,
    {}
    assert((max / b + 1) * b > max) by (nonlinear_arith)
        requires
            b > 0,
    {}
}

/// A product above the bound stays above it when multiplied further by a
/// positive factor.
proof fn lemma_mul_grows(a: nat, b: nat)
    requires
        b >= 1,
    ensures
        a * b >= a,
{
    assert(a * b >= a) by (nonlinear_arith)
        requires
            b >= 1,
    {}
}

/// With `amount` and at least one sub-field given, the topology is accepted
/// exactly when the total equals sockets times dies times cores times
/// threads.
pub proof fn lemma_cpu_accepts_iff_product(
    old: CpuConfig,
    t: Seq<(Seq<char>, SpecConfigValue)>,
    a: i64,
)
    requires
        spec_get(t, "amount"@) == Some(SpecConfigValue::Int(a)),
        0 <= a,
        spec_cpu_has_subfield(t),
        spec_cpu_field(old.cores, t, "cores"@) is Some,
        spec_cpu_field(old.threads, t, "threads"@) is Some,
        spec_cpu_field(old.dies, t, "dies"@) is Some,
        spec_cpu_field(old.sockets, t, "sockets"@) is Some,
    ensures
        spec_cpu_apply(old, t) is Some <==> a == spec_cpu_product(
            spec_cpu_field(old.sockets, t, "sockets"@)->Some_0,
            spec_cpu_field(old.dies, t, "dies"@)->Some_0,
            spec_cpu_field(old.cores, t, "cores"@)->Some_0,
            spec_cpu_field(old.threads, t, "threads"@)->Some_0,
        ),
{
    let p = spec_cpu_product(
        spec_cpu_field(old.sockets, t, "sockets"@)->Some_0,
        spec_cpu_field(old.dies, t, "dies"@)->Some_0,
        spec_cpu_field(old.cores, t, "cores"@)->Some_0,
        spec_cpu_field(old.threads, t, "threads"@)->Some_0,
    );
    if p > u64::MAX {
        assert(a <= u64::MAX);
    }
}

// ---------------------------------------------------------------------------
// Framebuffer sizing
// ---------------------------------------------------------------------------

/// The bytes a framebuffer needs before rounding: two frames of
/// width x height x ceil(4 x bit_depth / 8), plus two mebibytes.
pub open spec fn spec_lg_min_needed(width: u64, height: u64, bit_depth: u64) -> nat {
    (width as nat) * (height as nat) * (((bit_depth as nat) * 4 + 7) / 8) * 2 + 2097152
}

/// How far the rounding loop still has to grow.
pub open spec fn spec_pow2_gap(min: int, b: int) -> int {
    if b >= min {
        0
    } else {
        min - b
    }
}

/// The power of two the rounding loop lands on: the first of 4, 8, 16, ...
/// that reaches `min`.
pub open spec fn spec_round_pow2(b: nat, min: nat) -> nat
    decreases spec_pow2_gap(min as int, b as int),
{
    if b >= min {
        b
    } else if b == 0 {
        0
    } else {
        spec_round_pow2(2 * b, min)
    }
}

pub open spec fn spec_is_pow2(n: nat) -> bool
    decreases n,
{
    if n == 0 {
        false
    } else if n == 1 {
        true
    } else {
        n % 2 == 0 && spec_is_pow2(n / 2)
    }
}

impl LookingGlassConfig {
    pub fn default() -> (r: LookingGlassConfig)
        ensures
            r.enabled == false,
            r.mem_path@ == Seq::<char>::empty(),
            r.buffer_size == 0,
            r.width == 1920,
            r.height == 1080,
            r.bit_depth == 8,
    {
        LookingGlassConfig {
            enabled: false,
            mem_path: String::new(),
            buffer_size: 0,
            width: 1920,
            height: 1080,
            bit_depth: 8,
        }
    }

    /// Rounds the needed bytes up to a power of two, never below four. The
    /// shared memory region must be a power of two, and two frames plus
    /// bookkeeping must fit.
    pub fn calc_buffer_size_from_screen(&mut self)
        requires
            old(self).width * old(self).height <= 0x8000000000000000,
            old(self).bit_depth * 4 + 7 <= u64::MAX,
            spec_lg_min_needed(old(self).width, old(self).height, old(self).bit_depth)
                <= 0x8000000000000000,
        ensures
            *final(self) == (LookingGlassConfig {
                buffer_size: final(self).buffer_size,
                ..*old(self)
            }),
            final(self).buffer_size as nat == spec_round_pow2(
                4,
                spec_lg_min_needed(old(self).width, old(self).height, old(self).bit_depth),
            ),
            spec_is_pow2(final(self).buffer_size as nat),
            final(self).buffer_size as nat >= spec_lg_min_needed(
                old(self).width,
                old(self).height,
                old(self).bit_depth,
            ),
            (final(self).buffer_size as nat) < 2 * spec_lg_min_needed(
                old(self).width,
                old(self).height,
                old(self).bit_depth,
            ),
    {
        let ghost min_spec = spec_lg_min_needed(self.width, self.height, self.bit_depth);
        let ceil_term = (self.bit_depth * 4 + 7) / 8;
        let wh = self.width * self.height;
        proof {
            lemma_lg_partials(self.width as nat, self.height as nat, ceil_term as nat);
        }
        let frame = wh * ceil_term;
        let minimum_needed = frame * 2 + 2097152;
        proof {
            assert(minimum_needed as nat == min_spec);
            assert(minimum_needed >= 2097152);
        }
        let mut buffer_size: u64 = 4;
        proof {
            assert(spec_is_pow2(1nat));
            assert(spec_is_pow2(2nat));
            assert(spec_is_pow2(4nat));
        }
        while buffer_size < minimum_needed
            invariant
                minimum_needed as nat == min_spec,
                2097152 <= minimum_needed <= 0x8000000000000000,
                spec_is_pow2(buffer_size as nat),
                4 <= buffer_size,
                (buffer_size as nat) < 2 * (minimum_needed as nat),
                spec_round_pow2(buffer_size as nat, min_spec) == spec_round_pow2(4, min_spec),
            decreases spec_pow2_gap(minimum_needed as int, buffer_size as int),
        {
            proof {
                let bn = buffer_size as nat;
                assert((2 * bn) % 2 == 0);
                assert((2 * bn) / 2 == bn);
                assert(spec_is_pow2(2 * bn));
            }
            buffer_size = buffer_size * 2;
        }
        self.buffer_size = buffer_size;
    }
}

/// Rounding keeps a power of two a power of two, lands at or above the
/// target, and overshoots by less than double.
pub proof fn lemma_round_pow2_sound(b: nat, min: nat)
    requires
        spec_is_pow2(b),
    ensures
        spec_is_pow2(spec_round_pow2(b, min)),
        spec_round_pow2(b, min) >= min,
        b < 2 * min ==> spec_round_pow2(b, min) < 2 * min,
    decreases spec_pow2_gap(min as int, b as int),
{
    if b < min {
        assert(b >= 1);
        assert((2 * b) % 2 == 0);
        assert((2 * b) / 2 == b);
        assert(spec_is_pow2(2 * b));
        lemma_round_pow2_sound(2 * b, min);
    }
}

/// A derived framebuffer is always a power of two, and holds at least two
/// frames of width x height x ceil(bit_depth / 2) plus the bookkeeping
/// space.
pub proof fn lemma_framebuffer_size_sound(w: u64, h: u64, bd: u64)
    ensures
        spec_is_pow2(spec_round_pow2(4, spec_lg_min_needed(w, h, bd))),
        spec_round_pow2(4, spec_lg_min_needed(w, h, bd)) >= spec_lg_min_needed(w, h, bd),
        spec_round_pow2(4, spec_lg_min_needed(w, h, bd)) < 2 * spec_lg_min_needed(w, h, bd),
{
    assert(spec_is_pow2(1nat));
    assert(spec_is_pow2(2nat));
    assert(spec_is_pow2(4nat));
    assert(spec_lg_min_needed(w, h, bd) >= 2097152);
    lemma_round_pow2_sound(4, spec_lg_min_needed(w, h, bd));
}

/// The partial products of the framebuffer formula stay within `u64` when
/// the whole does.
proof fn lemma_lg_partials(w: nat, h: nat, c: nat)
    requires
        w * h <= 0x8000000000000000,
        w * h * c * 2 + 2097152 <= 0x8000000000000000,
    ensures
        w * h * c <= 0x8000000000000000,
        w * h * c * 2 <= 0x8000000000000000,
        (w * h) * c == w * h * c,
        (w * h * c) * 2 + 2097152 == w * h * c * 2 + 2097152,
{
    assert(w * h * c * 2 >= w * h * c) by (nonlinear_arith) {}
}


// ---------------------------------------------------------------------------
// Feature tables
// ---------------------------------------------------------------------------

/// How a `[uefi]` table changes the toggle: absent keeps it, a boolean sets
/// it, anything else is refused.
pub open spec fn spec_uefi_apply(old: UefiConfig, t: Seq<(Seq<char>, SpecConfigValue)>) -> Option<
    UefiConfig,
> {
    match spec_get(t, "enabled"@) {
        None => Some(old),
        Some(SpecConfigValue::Bool(b)) => Some(UefiConfig { enabled: b }),
        Some(_) => None,
    }
}

impl UefiConfig {
    pub fn default() -> (r: UefiConfig)
        ensures
            r == (UefiConfig { enabled: false }),
    {
        UefiConfig { enabled: false }
    }

    pub fn apply_table(&mut self, table: &ConfigTable) -> (r: Result<(), VoreError>)
        ensures
            (r is Ok) == (spec_uefi_apply(*old(self), table@) is Some),
            r is Ok ==> *final(self) == spec_uefi_apply(*old(self), table@)->Some_0,
            r is Err ==> (r matches Err(VoreError::NotABoolean { key }) && key@
                == "eufi.enabled"@),
    {
        if let Some(enabled) = table.get_bool("enabled", "eufi.enabled")? {
            self.enabled = enabled;
        }
        Ok(())
    }
}

/// What a `[scream]` table means.
pub open spec fn spec_scream_from_table(t: Seq<(Seq<char>, SpecConfigValue)>) -> Option<
    ScreamConfigView,
> {
    let en = match spec_get(t, "enabled"@) {
        None => Some(false),
        Some(SpecConfigValue::Bool(b)) => Some(b),
        Some(_) => None,
    };
    let mp = match spec_get(t, "mem-path"@) {
        None => Some(Seq::<char>::empty()),
        Some(SpecConfigValue::Str(x)) => Some(x),
        Some(SpecConfigValue::Int(v)) => Some(crate::config_model::spec_int_chars(v as int)),
        Some(_) => None,
    };
    let bs = match spec_get(t, "buffer-size"@) {
        None => Some(2097152u64),
        Some(SpecConfigValue::Int(v)) => if v >= 0 {
            Some(v as u64)
        } else {
            None
        },
        Some(_) => None,
    };
    match (en, mp, bs) {
        (Some(enabled), Some(mem_path), Some(buffer_size)) => Some(
            ScreamConfigView { enabled, mem_path, buffer_size },
        ),
        _ => None,
    }
}

impl ScreamConfig {
    pub fn default() -> (r: ScreamConfig)
        ensures
            r.enabled == false,
            r.mem_path@ == Seq::<char>::empty(),
            r.buffer_size == 2097152,
    {
        ScreamConfig { enabled: false, mem_path: String::new(), buffer_size: 2097152 }
    }

    pub fn from_table(table: &ConfigTable) -> (r: Result<ScreamConfig, VoreError>)
        ensures
            (r is Ok) == (spec_scream_from_table(table@) is Some),
            r is Ok ==> r->Ok_0@ == spec_scream_from_table(table@)->Some_0,
    {
        let mut cfg = ScreamConfig::default();
        if let Some(b) = table.get_bool("enabled", "scream.enabled")? {
            cfg.enabled = b;
        }
        if let Some(x) = table.get_string("mem-path", "scream.mem-path")? {
            cfg.mem_path = x;
        }
        if let Some(v) = table.get_u64("buffer-size", "scream.buffer-size")? {
            cfg.buffer_size = v;
        }
        Ok(cfg)
    }
}

/// What a `[spice]` table means.
pub open spec fn spec_spice_from_table(t: Seq<(Seq<char>, SpecConfigValue)>) -> Option<
    SpiceConfigView,
> {
    let en = match spec_get(t, "enabled"@) {
        None => Some(false),
        Some(SpecConfigValue::Bool(b)) => Some(b),
        Some(_) => None,
    };
    let sp = match spec_get(t, "socket-path"@) {
        None => Some(Seq::<char>::empty()),
        Some(SpecConfigValue::Str(x)) => Some(x),
        Some(SpecConfigValue::Int(v)) => Some(crate::config_model::spec_int_chars(v as int)),
        Some(_) => None,
    };
    match (en, sp) {
        (Some(enabled), Some(socket_path)) => Some(SpiceConfigView { enabled, socket_path }),
        _ => None,
    }
}

impl SpiceConfig {
    pub fn default() -> (r: SpiceConfig)
        ensures
            r.enabled == false,
            r.socket_path@ == Seq::<char>::empty(),
    {
        SpiceConfig { enabled: false, socket_path: String::new() }
    }

    pub fn from_table(table: &ConfigTable) -> (r: Result<SpiceConfig, VoreError>)
        ensures
            (r is Ok) == (spec_spice_from_table(table@) is Some),
            r is Ok ==> r->Ok_0@ == spec_spice_from_table(table@)->Some_0,
    {
        let mut cfg = SpiceConfig::default();
        if let Some(b) = table.get_bool("enabled", "spice.enabled")? {
            cfg.enabled = b;
        }
        if let Some(x) = table.get_string("socket-path", "spice.socket-path")? {
            cfg.socket_path = x;
        }
        Ok(cfg)
    }
}

/// What a `[pulse]` table means.
pub open spec fn spec_pulse_from_table(t: Seq<(Seq<char>, SpecConfigValue)>) -> Option<
    PulseConfig,
> {
    match spec_get(t, "enabled"@) {
        None => Some(PulseConfig { enabled: false }),
        Some(SpecConfigValue::Bool(b)) => Some(PulseConfig { enabled: b }),
        Some(_) => None,
    }
}

impl PulseConfig {
    pub fn default() -> (r: PulseConfig)
        ensures
            r == (PulseConfig { enabled: false }),
    {
        PulseConfig { enabled: false }
    }

    pub fn from_table(table: &ConfigTable) -> (r: Result<PulseConfig, VoreError>)
        ensures
            (r is Ok) == (spec_pulse_from_table(table@) is Some),
            r is Ok ==> r->Ok_0 == spec_pulse_from_table(table@)->Some_0,
            r is Err ==> (r matches Err(VoreError::NotABoolean { key }) && key@
                == "pulse.enabled"@),
    {
        let mut cfg = PulseConfig::default();
        if let Some(b) = table.get_bool("enabled", "pulse.enabled")? {
            cfg.enabled = b;
        }
        Ok(cfg)
    }
}

// ---------------------------------------------------------------------------
// Disks
// ---------------------------------------------------------------------------

/// The driver read off a path when none is declared: `/dev/...` and `.iso`
/// are raw, `.qcow2` is qcow2, anything else is refused.
pub open spec fn spec_disk_type_of_path(p: Seq<char>) -> Option<Seq<char>> {
    let pb = vstd::utf8::encode_utf8(p);
    if crate::text::spec_starts_with(pb, vstd::utf8::encode_utf8("/dev"@))
        || crate::text::spec_ends_with(pb, vstd::utf8::encode_utf8(".iso"@)) {
        Some("raw"@)
    } else if crate::text::spec_ends_with(pb, vstd::utf8::encode_utf8(".qcow2"@)) {
        Some("qcow2"@)
    } else {
        None
    }
}

/// What a `[[disk]]` table means: a path, a preset, a driver (declared or
/// read off the path), and a read-only toggle.
pub open spec fn spec_disk_from_table(t: Seq<(Seq<char>, SpecConfigValue)>) -> Option<
    DiskConfigView,
> {
    let path = match spec_get(t, "path"@) {
        Some(SpecConfigValue::Str(x)) => Some(x),
        Some(SpecConfigValue::Int(v)) => Some(crate::config_model::spec_int_chars(v as int)),
        _ => None,
    };
    match path {
        None => None,
        Some(p) => {
            let dt = match spec_get(t, "type"@) {
                Some(SpecConfigValue::Str(x)) => Some(x),
                Some(SpecConfigValue::Int(v)) => Some(crate::config_model::spec_int_chars(v as int)),
                Some(_) => None,
                None => spec_disk_type_of_path(p),
            };
            let preset = match spec_get(t, "preset"@) {
                Some(SpecConfigValue::Str(x)) => Some(x),
                Some(SpecConfigValue::Int(v)) => Some(crate::config_model::spec_int_chars(v as int)),
                _ => None,
            };
            let ro = match spec_get(t, "read-only"@) {
                None => Some(false),
                Some(SpecConfigValue::Bool(b)) => Some(b),
                Some(_) => None,
            };
            match (dt, preset, ro) {
                (Some(disk_type), Some(pr), Some(read_only)) => Some(
                    DiskConfigView { disk_type, preset: pr, path: p, read_only },
                ),
                _ => None,
            }
        },
    }
}

impl DiskConfig {
    /// Reads one disk declaration. The path and a preset are required; the
    /// driver is taken from the declaration or read off the path's shape.
    pub fn from_table(table: &ConfigTable) -> (r: Result<DiskConfig, VoreError>)
        ensures
            (r is Ok) == (spec_disk_from_table(table@) is Some),
            r is Ok ==> r->Ok_0@ == spec_disk_from_table(table@)->Some_0,
            spec_get(table@, "path"@) is None ==> r == Err::<DiskConfig, VoreError>(
                VoreError::DiskNeedsPath,
            ),
            ({
                let path = match spec_get(table@, "path"@) {
                    Some(SpecConfigValue::Str(x)) => Some(x),
                    Some(SpecConfigValue::Int(v)) => Some(
                        crate::config_model::spec_int_chars(v as int),
                    ),
                    _ => None,
                };
                path matches Some(p) && spec_get(table@, "type"@) is None
                    && spec_disk_type_of_path(p) is None ==> r == Err::<DiskConfig, VoreError>(
                    VoreError::DiskTypeUnknown,
                )
            }),
            ({
                let path = match spec_get(table@, "path"@) {
                    Some(SpecConfigValue::Str(x)) => Some(x),
                    Some(SpecConfigValue::Int(v)) => Some(
                        crate::config_model::spec_int_chars(v as int),
                    ),
                    _ => None,
                };
                let dt = match spec_get(table@, "type"@) {
                    Some(SpecConfigValue::Str(x)) => Some(x),
                    Some(SpecConfigValue::Int(v)) => Some(
                        crate::config_model::spec_int_chars(v as int),
                    ),
                    Some(_) => None,
                    None => match path {
                        Some(p) => spec_disk_type_of_path(p),
                        None => None,
                    },
                };
                path is Some && dt is Some && spec_get(table@, "preset"@) is None ==> r
                    == Err::<DiskConfig, VoreError>(VoreError::DiskNeedsPreset)
            }),
    {
        let path = match table.get_string("path", "disk.path")? {
            Some(p) => p,
            None => {
                return Err(VoreError::DiskNeedsPath);
            },
        };
        let has_type = table.has_key("type");
        let disk_type: String = if has_type {
            match table.get_string("type", "disk.type")? {
                Some(t) => t,
                None => {
                    // unreachable: the key is there
                    return Err(VoreError::DiskTypeUnknown);
                },
            }
        } else {
            let pb = path.as_str().as_bytes();
            if crate::text::bytes_start_with(pb, "/dev".as_bytes()) || crate::text::bytes_end_with(
                pb,
                ".iso".as_bytes(),
            ) {
                String::from_str("raw")
            } else if crate::text::bytes_end_with(pb, ".qcow2".as_bytes()) {
                String::from_str("qcow2")
            } else {
                return Err(VoreError::DiskTypeUnknown);
            }
        };
        let preset = match table.get_string("preset", "disk.preset")? {
            Some(p) => p,
            None => {
                return Err(VoreError::DiskNeedsPreset);
            },
        };
        let read_only = match table.get_bool("read-only", "disk.read-only")? {
            Some(b) => b,
            None => false,
        };
        Ok(DiskConfig { disk_type, preset, path, read_only })
    }
}


// ---------------------------------------------------------------------------
// VFIO devices
// ---------------------------------------------------------------------------

/// A PCI address packed so that numeric order is the enumeration order:
/// domain, then bus, then slot, then function.
pub open spec fn spec_pci_key(a: PCIAddress) -> int {
    (a.domain as int) * 0x1000000 + (a.bus as int) * 0x10000 + (a.slot as int) * 0x100 + (
    a.func as int)
}

fn pci_key(a: &PCIAddress) -> (k: u64)
    ensures
        k as int == spec_pci_key(*a),
{
    (a.domain as u64) * 0x1000000 + (a.bus as u64) * 0x10000 + (a.slot as u64) * 0x100 + (
    a.func as u64)
}

/// Insertion of one device into an address-sorted run, after any device with
/// the same address.
pub open spec fn spec_insert_pci(x: PciDevice, s: Seq<PciDevice>) -> Seq<PciDevice>
    decreases s.len(),
{
    if s.len() == 0 {
        seq![x]
    } else if spec_pci_key(x.address) < spec_pci_key(s[0].address) {
        seq![x] + s
    } else {
        seq![s[0]] + spec_insert_pci(x, s.drop_first())
    }
}

/// The host's devices in ascending address order, ties kept in enumeration
/// order.
pub open spec fn spec_sort_pci(s: Seq<PciDevice>) -> Seq<PciDevice>
    decreases s.len(),
{
    if s.len() == 0 {
        Seq::empty()
    } else {
        spec_insert_pci(s.last(), spec_sort_pci(s.drop_last()))
    }
}

proof fn lemma_insert_pci_at(x: PciDevice, s: Seq<PciDevice>, j: int)
    requires
        0 <= j <= s.len(),
        forall|k: int| 0 <= k < j ==> !(spec_pci_key(x.address) < spec_pci_key(
            #[trigger] s[k].address,
        )),
        j < s.len() ==> spec_pci_key(x.address) < spec_pci_key(s[j].address),
    ensures
        spec_insert_pci(x, s) =~= s.take(j) + seq![x] + s.skip(j),
    decreases s.len(),
{
    if s.len() == 0 {
    } else if spec_pci_key(x.address) < spec_pci_key(s[0].address) {
        assert(j == 0);
    } else {
        assert(j >= 1);
        let t = s.drop_first();
        lemma_insert_pci_at(x, t, j - 1);
        assert(seq![s[0]] + (t.take(j - 1) + seq![x] + t.skip(j - 1)) =~= s.take(j) + seq![x]
            + s.skip(j));
    }
}

/// Inserts a device at its place in an address-sorted vector.
fn insert_pci(v: &mut Vec<PciDevice>, x: PciDevice)
    ensures
        final(v)@ == spec_insert_pci(x, old(v)@),
{
    let kx = pci_key(&x.address);
    let mut j: usize = 0;
    while j < v.len() && pci_key(&v[j].address) <= kx
        invariant
            j <= v@.len(),
            kx as int == spec_pci_key(x.address),
            forall|k: int| 0 <= k < j ==> !(spec_pci_key(x.address) < spec_pci_key(
                #[trigger] v@[k].address,
            )),
        decreases v.len() - j,
    {
        j = j + 1;
    }
    proof {
        lemma_insert_pci_at(x, v@, j as int);
    }
    v.insert(j, x);
    proof {
        assert(old(v)@.insert(j as int, x) =~= old(v)@.take(j as int) + seq![x] + old(v)@.skip(
            j as int,
        ));
    }
}

/// Sorts the host's device list by address, keeping the order of equal
/// addresses.
pub fn sort_pci_devices(list: &Vec<PciDevice>) -> (r: Vec<PciDevice>)
    ensures
        r@ == spec_sort_pci(list@),
{
    let mut out: Vec<PciDevice> = Vec::new();
    let mut i: usize = 0;
    proof {
        assert(list@.take(0) =~= Seq::<PciDevice>::empty());
    }
    while i < list.len()
        invariant
            i <= list@.len(),
            out@ == spec_sort_pci(list@.take(i as int)),
        decreases list.len() - i,
    {
        let x = list[i];
        proof {
            assert(list@.take(i + 1).drop_last() =~= list@.take(i as int));
            assert(list@.take(i + 1).last() == list@[i as int]);
        }
        insert_pci(&mut out, x);
        i = i + 1;
    }
    proof {
        assert(list@.take(list@.len() as int) =~= list@);
    }
    out
}

pub open spec fn spec_vfio_matches(p: PciDevice, vendor: u32, device: u32) -> bool {
    p.vendor == vendor && p.device == device
}

/// The devices with the given ids, in the order of `s`.
pub open spec fn spec_matching(s: Seq<PciDevice>, vendor: u32, device: u32) -> Seq<PciDevice>
    decreases s.len(),
{
    if s.len() == 0 {
        Seq::empty()
    } else if spec_vfio_matches(s.last(), vendor, device) {
        spec_matching(s.drop_last(), vendor, device).push(s.last())
    } else {
        spec_matching(s.drop_last(), vendor, device)
    }
}

proof fn lemma_matching_take_step(s: Seq<PciDevice>, vendor: u32, device: u32, i: int)
    requires
        0 <= i < s.len(),
    ensures
        spec_matching(s.take(i + 1), vendor, device) == if spec_vfio_matches(
            s[i],
            vendor,
            device,
        ) {
            spec_matching(s.take(i), vendor, device).push(s[i])
        } else {
            spec_matching(s.take(i), vendor, device)
        },
{
    assert(s.take(i + 1).drop_last() =~= s.take(i));
    assert(s.take(i + 1).last() == s[i]);
}

/// What the matching run of a prefix shows stays in place in the whole.
proof fn lemma_matching_prefix(s: Seq<PciDevice>, vendor: u32, device: u32, i: int)
    requires
        0 <= i <= s.len(),
    ensures
        spec_matching(s.take(i), vendor, device).len() <= spec_matching(s, vendor, device).len(),
        forall|k: int|
            0 <= k < spec_matching(s.take(i), vendor, device).len() ==> #[trigger] spec_matching(
                s.take(i),
                vendor,
                device,
            )[k] == spec_matching(s, vendor, device)[k],
    decreases s.len() - i,
{
    if i < s.len() {
        lemma_matching_take_step(s, vendor, device, i);
        lemma_matching_prefix(s, vendor, device, i + 1);
        let a = spec_matching(s.take(i), vendor, device);
        let b = spec_matching(s.take(i + 1), vendor, device);
        assert forall|k: int| 0 <= k < a.len() implies #[trigger] a[k] == spec_matching(
            s,
            vendor,
            device,
        )[k] by {
            assert(b[k] == spec_matching(s, vendor, device)[k]);
            assert(a[k] == b[k]);
        }
    } else {
        assert(s.take(i) =~= s);
    }
}

/// The first device at an address, in the order given.
pub open spec fn spec_find_pci(s: Seq<PciDevice>, a: PCIAddress) -> Option<PciDevice>
    decreases s.len(),
{
    if s.len() == 0 {
        None
    } else if s[0].address == a {
        Some(s[0])
    } else {
        spec_find_pci(s.drop_first(), a)
    }
}

proof fn lemma_find_pci_skip_step(s: Seq<PciDevice>, a: PCIAddress, i: int)
    requires
        0 <= i < s.len(),
        s[i].address != a,
    ensures
        spec_find_pci(s.skip(i), a) == spec_find_pci(s.skip(i + 1), a),
{
    assert(s.skip(i)[0] == s[i]);
    assert(s.skip(i).drop_first() =~= s.skip(i + 1));
}

fn find_pci(list: &Vec<PciDevice>, a: &PCIAddress) -> (r: Option<PciDevice>)
    ensures
        r == spec_find_pci(list@, *a),
{
    let mut i: usize = 0;
    proof {
        assert(list@.skip(0) =~= list@);
    }
    while i < list.len()
        invariant
            i <= list@.len(),
            spec_find_pci(list@, *a) == spec_find_pci(list@.skip(i as int), *a),
        decreases list.len() - i,
    {
        if list[i].address == *a {
            proof {
                assert(list@.skip(i as int)[0] == list@[i as int]);
            }
            return Some(list[i]);
        }
        proof {
            lemma_find_pci_skip_step(list@, *a, i as int);
        }
        i = i + 1;
    }
    proof {
        assert(list@.skip(list@.len() as int) =~= Seq::<PciDevice>::empty());
    }
    None
}

/// An optional id for a VFIO selector: absent, or a non-negative number that
/// fits a PCI id.
pub open spec fn spec_vfio_id(t: Seq<(Seq<char>, SpecConfigValue)>, key: Seq<char>) -> Option<
    Option<u32>,
> {
    match spec_get(t, key) {
        None => Some(None),
        Some(SpecConfigValue::Int(v)) => if 0 <= v <= u32::MAX {
            Some(Some(v as u32))
        } else {
            None
        },
        Some(_) => None,
    }
}

/// The address a `[[vfio]]` table names: written under `addr` or `address`,
/// directly or through the vendor/device/index selector run against the
/// host's devices in sorted order.
pub open spec fn spec_vfio_address(
    t: Seq<(Seq<char>, SpecConfigValue)>,
    pci: Seq<PciDevice>,
) -> Option<PCIAddress> {
    let addr_val = match spec_get(t, "addr"@) {
        Some(v) => Some(v),
        None => spec_get(t, "address"@),
    };
    let addr: Option<Option<PCIAddress>> = match addr_val {
        None => Some(None),
        Some(SpecConfigValue::Str(x)) => match crate::pci::spec_parse_pci(
            vstd::utf8::encode_utf8(x),
        ) {
            Some(a) => Some(Some(a)),
            None => None,
        },
        Some(SpecConfigValue::Int(v)) => match crate::pci::spec_parse_pci(
            vstd::utf8::encode_utf8(crate::config_model::spec_int_chars(v as int)),
        ) {
            Some(a) => Some(Some(a)),
            None => None,
        },
        Some(_) => None,
    };
    match (addr, spec_vfio_id(t, "vendor"@), spec_vfio_id(t, "device"@), spec_vfio_id(t, "index"@)) {
        (Some(Some(a)), Some(vendor), Some(device), Some(_)) => {
            if vendor is Some || device is Some {
                match spec_find_pci(pci, a) {
                    None => None,
                    Some(p) => {
                        if device matches Some(d) && d != p.device {
                            None
                        } else if vendor matches Some(v) && v != p.vendor {
                            None
                        } else {
                            Some(a)
                        }
                    },
                }
            } else {
                Some(a)
            }
        },
        (Some(None), Some(Some(vendor)), Some(Some(device)), Some(index)) => {
            let idx = match index {
                Some(i) => i,
                None => 0u32,
            };
            let ms = spec_matching(spec_sort_pci(pci), vendor, device);
            if idx < ms.len() {
                Some(ms[idx as int].address)
            } else {
                None
            }
        },
        _ => None,
    }
}

/// What a `[[vfio]]` table means, against the host's device list.
pub open spec fn spec_vfio_from_table(
    t: Seq<(Seq<char>, SpecConfigValue)>,
    pci: Seq<PciDevice>,
) -> Option<VfioConfig> {
    let graphics = match spec_get(t, "graphics"@) {
        None => Some(false),
        Some(SpecConfigValue::Bool(b)) => Some(b),
        Some(_) => None,
    };
    let multifunction = match spec_get(t, "multifunction"@) {
        None => Some(false),
        Some(SpecConfigValue::Bool(b)) => Some(b),
        Some(_) => None,
    };
    match (spec_vfio_address(t, pci), graphics, multifunction) {
        (Some(address), Some(g), Some(m)) => Some(
            VfioConfig {
                address,
                vendor: None,
                device: None,
                index: 0u32,
                graphics: g,
                multifunction: m,
            },
        ),
        _ => None,
    }
}

impl VfioConfig {
    /// Reads one VFIO declaration against the host's devices: either an
    /// address (with optional expected ids to check), or a vendor and device
    /// pair of which the index-th match in sorted address order is taken.
    pub fn from_table(table: &ConfigTable, pci: &Vec<PciDevice>) -> (r: Result<
        VfioConfig,
        VoreError,
    >)
        ensures
            (r is Ok) == (spec_vfio_from_table(table@, pci@) is Some),
            r is Ok ==> r->Ok_0 == spec_vfio_from_table(table@, pci@)->Some_0,
    {
        let addr_present = table.has_key("addr");
        let addr_val: Option<&ConfigValue> = if addr_present {
            table.get("addr")
        } else {
            table.get("address")
        };
        let address: Option<PCIAddress> = match addr_val {
            None => None,
            Some(ConfigValue::Str(x)) => {
                match PCIAddress::from_str(x.as_str()) {
                    Ok(a) => Some(a),
                    Err(e) => {
                        return Err(e);
                    },
                }
            },
            Some(ConfigValue::Int(v)) => {
                let rendered = crate::config_model::int_string(*v);
                match PCIAddress::from_str(rendered.as_str()) {
                    Ok(a) => Some(a),
                    Err(e) => {
                        return Err(e);
                    },
                }
            },
            Some(_) => {
                return Err(VoreError::NotAString { key: String::from_str("vfio.addr") });
            },
        };
        let vendor = Self::id_field(table, "vendor", "vfio.vendor")?;
        let device = Self::id_field(table, "device", "vfio.device")?;
        let index_opt = Self::id_field(table, "index", "vfio.index")?;
        let address: PCIAddress = match (address, vendor, device) {
            (Some(a), vendor, device) => {
                if vendor.is_some() || device.is_some() {
                    match find_pci(pci, &a) {
                        None => {
                            return Err(
                                VoreError::HostError {
                                    message: String::from_str(
                                        "Failed to read the ids of the PCI device the VFIO entry names",
                                    ),
                                },
                            );
                        },
                        Some(p) => {
                            if let Some(d) = device {
                                if d != p.device {
                                    return Err(
                                        VoreError::VfioWrongDeviceId {
                                            address: a.to_string(),
                                            expected: d,
                                            found: p.device,
                                        },
                                    );
                                }
                            }
                            if let Some(v) = vendor {
                                if v != p.vendor {
                                    return Err(
                                        VoreError::VfioWrongVendorId {
                                            address: a.to_string(),
                                            expected: v,
                                            found: p.vendor,
                                        },
                                    );
                                }
                            }
                            a
                        },
                    }
                } else {
                    a
                }
            },
            (None, Some(vendor), Some(device)) => {
                let index = match index_opt {
                    Some(i) => i,
                    None => 0u32,
                };
                let sorted = sort_pci_devices(pci);
                let mut count: u32 = 0;
                let mut found: Option<PCIAddress> = None;
                let ghost ms = spec_matching(spec_sort_pci(pci@), vendor, device);
                let mut i: usize = 0;
                proof {
                    assert(sorted@.take(0) =~= Seq::<PciDevice>::empty());
                }
                while i < sorted.len()
                    invariant
                        i <= sorted@.len(),
                        sorted@ == spec_sort_pci(pci@),
                        ms == spec_matching(spec_sort_pci(pci@), vendor, device),
                        found is None ==> count as int == spec_matching(
                            sorted@.take(i as int),
                            vendor,
                            device,
                        ).len() && count <= index,
                        found matches Some(a) ==> index < ms.len() && a == ms[index as int].address,
                    decreases sorted.len() - i,
                {
                    if found.is_none() {
                        let p = sorted[i];
                        proof {
                            lemma_matching_take_step(sorted@, vendor, device, i as int);
                        }
                        if p.vendor == vendor && p.device == device {
                            if count == index {
                                proof {
                                    lemma_matching_prefix(sorted@, vendor, device, i as int + 1);
                                    assert(spec_matching(sorted@.take(i as int + 1), vendor, device)[
                                        index as int] == p);
                                }
                                found = Some(p.address);
                            } else {
                                count = count + 1;
                            }
                        }
                    }
                    i = i + 1;
                }
                proof {
                    assert(sorted@.take(sorted@.len() as int) =~= sorted@);
                }
                match found {
                    Some(a) => a,
                    None => {
                        return Err(VoreError::VfioNoSuchDevice { index, vendor, device });
                    },
                }
            },
            _ => {
                return Err(VoreError::VfioNeedsSelector);
            },
        };
        let graphics = match table.get_bool("graphics", "vfio.graphics")? {
            Some(b) => b,
            None => false,
        };
        let multifunction = match table.get_bool("multifunction", "vfio.multifunction")? {
            Some(b) => b,
            None => false,
        };
        Ok(
            VfioConfig {
                address,
                vendor: None,
                device: None,
                index: 0,
                graphics,
                multifunction,
            },
        )
    }

    /// One optional id field of a VFIO table, refused when out of a PCI id's
    /// range.
    fn id_field(table: &ConfigTable, key: &str, err_key: &str) -> (r: Result<
        Option<u32>,
        VoreError,
    >)
        ensures
            spec_vfio_id(table@, key@) is Some ==> r is Ok && r->Ok_0 == spec_vfio_id(
                table@,
                key@,
            )->Some_0,
            spec_vfio_id(table@, key@) is None ==> r is Err,
    {
        match table.get_u64(key, err_key)? {
            None => Ok(None),
            Some(v) => {
                if v <= 0xffffffff {
                    Ok(Some(v as u32))
                } else {
                    Err(VoreError::NotANumber { key: err_key.to_owned() })
                }
            },
        }
    }
}


/// What a `[looking-glass]` table means: the buffer is given directly, or
/// derived from the screen geometry and rounded up to a power of two.
pub open spec fn spec_lg_from_table(t: Seq<(Seq<char>, SpecConfigValue)>) -> Option<
    LookingGlassConfigView,
> {
    let en = match spec_get(t, "enabled"@) {
        None => Some(false),
        Some(SpecConfigValue::Bool(b)) => Some(b),
        Some(_) => None,
    };
    let mp = match spec_get(t, "mem-path"@) {
        None => Some(Seq::<char>::empty()),
        Some(SpecConfigValue::Str(x)) => Some(x),
        Some(SpecConfigValue::Int(v)) => Some(crate::config_model::spec_int_chars(v as int)),
        Some(_) => None,
    };
    match (en, mp) {
        (Some(enabled), Some(mem_path)) => {
            match (spec_get(t, "buffer-size"@), spec_get(t, "width"@), spec_get(t, "height"@)) {
                (Some(SpecConfigValue::Int(bs)), None, None) => {
                    if bs >= 0 {
                        Some(
                            LookingGlassConfigView {
                                enabled,
                                mem_path,
                                buffer_size: bs as u64,
                                width: 1920,
                                height: 1080,
                                bit_depth: 8,
                            },
                        )
                    } else {
                        None
                    }
                },
                (None, Some(SpecConfigValue::Int(w)), Some(SpecConfigValue::Int(h))) => {
                    let bd = match spec_get(t, "bit-depth"@) {
                        None => Some(8u64),
                        Some(SpecConfigValue::Int(v)) => if v >= 0 {
                            Some(v as u64)
                        } else {
                            None
                        },
                        Some(_) => None,
                    };
                    match bd {
                        None => None,
                        Some(bdv) => {
                            if w >= 0 && h >= 0 && spec_lg_dims_fit(w as u64, h as u64, bdv) {
                                Some(
                                    spec_lg_derived(
                                        enabled,
                                        mem_path,
                                        w as u64,
                                        h as u64,
                                        bdv,
                                    ),
                                )
                            } else {
                                None
                            }
                        },
                    }
                },
                (None, None, None) => {
                    Some(spec_lg_derived(enabled, mem_path, 1920, 1080, 8))
                },
                _ => None,
            }
        },
        _ => None,
    }
}

/// The geometry keeps every intermediate of the sizing formula within range.
pub open spec fn spec_lg_dims_fit(w: u64, h: u64, bd: u64) -> bool {
    &&& (w as nat) * (h as nat) <= 0x8000000000000000
    &&& (bd as nat) * 4 + 7 <= u64::MAX
    &&& spec_lg_min_needed(w, h, bd) <= 0x8000000000000000
}

/// The view a derived framebuffer configuration settles on.
pub open spec fn spec_lg_derived(
    enabled: bool,
    mem_path: Seq<char>,
    w: u64,
    h: u64,
    bd: u64,
) -> LookingGlassConfigView {
    LookingGlassConfigView {
        enabled,
        mem_path,
        buffer_size: spec_round_pow2(4, spec_lg_min_needed(w, h, bd)) as u64,
        width: w,
        height: h,
        bit_depth: bd,
    }
}

impl LookingGlassConfig {
    /// Reads a `[looking-glass]` table: either a direct buffer size, or a
    /// width and height (with an optional bit depth) the size is derived
    /// from; naming both is refused.
    pub fn from_table(table: &ConfigTable) -> (r: Result<LookingGlassConfig, VoreError>)
        ensures
            (r is Ok) == (spec_lg_from_table(table@) is Some),
            r is Ok ==> r->Ok_0@ == spec_lg_from_table(table@)->Some_0,
    {
        let mut cfg = LookingGlassConfig::default();
        if let Some(b) = table.get_bool("enabled", "looking-glass.enabled")? {
            cfg.enabled = b;
        }
        if let Some(x) = table.get_string("mem-path", "looking-glass.mem-path")? {
            cfg.mem_path = x;
        }
        let has_bs = table.has_key("buffer-size");
        let has_w = table.has_key("width");
        let has_h = table.has_key("height");
        if has_bs && !has_w && !has_h {
            match table.get_u64("buffer-size", "looking-glass.buffer-size")? {
                Some(v) => {
                    cfg.buffer_size = v;
                },
                None => {
                    return Err(VoreError::LookingGlassGeometry);
                },
            }
        } else if !has_bs && has_w && has_h {
            let w = match table.get_u64("width", "looking-glass.width")? {
                Some(v) => v,
                None => {
                    return Err(VoreError::LookingGlassGeometry);
                },
            };
            let h = match table.get_u64("height", "looking-glass.height")? {
                Some(v) => v,
                None => {
                    return Err(VoreError::LookingGlassGeometry);
                },
            };
            let bd = match table.get_u64("bit-depth", "looking-glass.bit-depth")? {
                Some(v) => v,
                None => 8,
            };
            if !lg_dims_fit(w, h, bd) {
                return Err(VoreError::LookingGlassTooLarge);
            }
            cfg.width = w;
            cfg.height = h;
            cfg.bit_depth = bd;
            cfg.calc_buffer_size_from_screen();
        } else if !has_bs && !has_w && !has_h {
            cfg.calc_buffer_size_from_screen();
        } else {
            return Err(VoreError::LookingGlassGeometry);
        }
        Ok(cfg)
    }
}

/// Decides `spec_lg_dims_fit` step by step, so that the sizing formula can
/// run without overflow.
fn lg_dims_fit(w: u64, h: u64, bd: u64) -> (r: bool)
    ensures
        r == spec_lg_dims_fit(w, h, bd),
{
    if bd > (u64::MAX - 7) / 4 {
        proof {
            assert(!((bd as nat) * 4 + 7 <= u64::MAX));
        }
        return false;
    }
    let ct = (bd * 4 + 7) / 8;
    if h != 0 && w > 0x8000000000000000u64 / h {
        proof {
            lemma_mul_exceeds(w as nat, h as nat, 0x8000000000000000nat);
        }
        return false;
    }
    proof {
        if h == 0 {
            assert((w as nat) * (h as nat) == 0) by (nonlinear_arith)
                requires
                    h as nat == 0,
            {}
        } else {
            lemma_mul_fits(w as nat, h as nat, 0x8000000000000000nat);
        }
    }
    let wh = w * h;
    if ct == 0 {
        proof {
            assert((wh as nat) * 0 * 2 + 2097152 <= 0x8000000000000000);
        }
        return true;
    }
    // min <= 2^63 exactly when wh * ct stays at or under (2^63 - 2 MiB) / 2
    let bound: u64 = (0x8000000000000000u64 - 2097152) / 2;
    if wh > bound / ct {
        proof {
            lemma_mul_exceeds(wh as nat, ct as nat, bound as nat);
        }
        false
    } else {
        proof {
            lemma_mul_fits(wh as nat, ct as nat, bound as nat);
        }
        true
    }
}

// ---------------------------------------------------------------------------
// The whole document
// ---------------------------------------------------------------------------

/// The disks of a document, in order; the first refused one refuses the lot.
pub open spec fn spec_parse_disks(ds: Seq<Seq<(Seq<char>, SpecConfigValue)>>) -> Option<
    Seq<DiskConfigView>,
>
    decreases ds.len(),
{
    if ds.len() == 0 {
        Some(Seq::empty())
    } else {
        match (spec_parse_disks(ds.drop_last()), spec_disk_from_table(ds.last())) {
            (Some(v), Some(d)) => Some(v.push(d)),
            _ => None,
        }
    }
}

/// The VFIO entries of a document, in order.
pub open spec fn spec_parse_vfio(
    vs: Seq<Seq<(Seq<char>, SpecConfigValue)>>,
    pci: Seq<PciDevice>,
) -> Option<Seq<VfioConfig>>
    decreases vs.len(),
{
    if vs.len() == 0 {
        Some(Seq::empty())
    } else {
        match (spec_parse_vfio(vs.drop_last(), pci), spec_vfio_from_table(vs.last(), pci)) {
            (Some(v), Some(d)) => Some(v.push(d)),
            _ => None,
        }
    }
}


proof fn lemma_parse_disks_fail(ds: Seq<Seq<(Seq<char>, SpecConfigValue)>>, i: int)
    requires
        0 <= i < ds.len(),
        spec_disk_from_table(ds[i]) is None,
    ensures
        spec_parse_disks(ds) is None,
    decreases ds.len(),
{
    if i < ds.len() - 1 {
        assert(ds.drop_last()[i] == ds[i]);
        lemma_parse_disks_fail(ds.drop_last(), i);
    }
}

proof fn lemma_parse_vfio_fail(
    vs: Seq<Seq<(Seq<char>, SpecConfigValue)>>,
    pci: Seq<PciDevice>,
    i: int,
)
    requires
        0 <= i < vs.len(),
        spec_vfio_from_table(vs[i], pci) is None,
    ensures
        spec_parse_vfio(vs, pci) is None,
    decreases vs.len(),
{
    if i < vs.len() - 1 {
        assert(vs.drop_last()[i] == vs[i]);
        lemma_parse_vfio_fail(vs.drop_last(), pci, i);
    }
}

/// One feature name toggling its block on; unknown names do nothing.
pub open spec fn spec_apply_feature(c: InstanceConfigView, f: Seq<char>) -> InstanceConfigView {
    if f == "looking-glass"@ {
        InstanceConfigView {
            looking_glass: LookingGlassConfigView { enabled: true, ..c.looking_glass },
            ..c
        }
    } else if f == "spice"@ {
        InstanceConfigView { spice: SpiceConfigView { enabled: true, ..c.spice }, ..c }
    } else if f == "scream"@ {
        InstanceConfigView { scream: ScreamConfigView { enabled: true, ..c.scream }, ..c }
    } else if f == "uefi"@ {
        InstanceConfigView { uefi: UefiConfig { enabled: true }, ..c }
    } else if f == "pulse"@ {
        InstanceConfigView { pulse: PulseConfig { enabled: true }, ..c }
    } else {
        c
    }
}

pub open spec fn spec_apply_features(c: InstanceConfigView, fs: Seq<Seq<char>>) -> InstanceConfigView
    decreases fs.len(),
{
    if fs.len() == 0 {
        c
    } else {
        spec_apply_features(spec_apply_feature(c, fs[0]), fs.drop_first())
    }
}

/// The default configuration a document starts from.
pub open spec fn spec_default_config() -> InstanceConfigView {
    InstanceConfigView {
        name: "vore"@,
        arch: "x86_64"@,
        chipset: "q35"@,
        kvm: true,
        memory: 2147483648u64,
        cpu: spec_default_cpu(),
        disks: Seq::empty(),
        uefi: UefiConfig { enabled: false },
        vfio: Seq::empty(),
        looking_glass: LookingGlassConfigView {
            enabled: false,
            mem_path: Seq::empty(),
            buffer_size: 0,
            width: 1920,
            height: 1080,
            bit_depth: 8,
        },
        scream: ScreamConfigView {
            enabled: false,
            mem_path: Seq::empty(),
            buffer_size: 2097152,
        },
        pulse: PulseConfig { enabled: false },
        spice: SpiceConfigView { enabled: false, socket_path: Seq::empty() },
    }
}

pub open spec fn spec_opt_or_empty(t: Option<Seq<(Seq<char>, SpecConfigValue)>>) -> Seq<
    (Seq<char>, SpecConfigValue),
> {
    match t {
        Some(x) => x,
        None => Seq::empty(),
    }
}

/// What a whole document means, against the host's device list: the typed
/// record it parses to, or nothing when any part is refused.
pub open spec fn spec_from_config(
    d: crate::config_model::SpecConfigDoc,
    pci: Seq<PciDevice>,
) -> Option<InstanceConfigView> {
    let name = match spec_get(d.machine, "name"@) {
        Some(SpecConfigValue::Str(x)) => x,
        Some(SpecConfigValue::Int(v)) => crate::config_model::spec_int_chars(v as int),
        _ => "vore"@,
    };
    let kvm = match spec_get(d.machine, "kvm"@) {
        None => Some(true),
        Some(SpecConfigValue::Bool(b)) => Some(b),
        Some(_) => None,
    };
    let memory = match spec_get(d.machine, "memory"@) {
        None => Some(2147483648u64),
        Some(SpecConfigValue::Str(x)) => spec_parse_size(vstd::utf8::encode_utf8(x)),
        Some(SpecConfigValue::Int(v)) => spec_parse_size(
            vstd::utf8::encode_utf8(crate::config_model::spec_int_chars(v as int)),
        ),
        Some(_) => None,
    };
    let cpu = match d.cpu {
        None => Some(spec_default_cpu()),
        Some(t) => spec_cpu_apply(spec_default_cpu(), t),
    };
    let uefi = match d.uefi {
        None => Some(UefiConfig { enabled: false }),
        Some(t) => spec_uefi_apply(UefiConfig { enabled: false }, t),
    };
    let disks = spec_parse_disks(d.disk);
    let vfio = spec_parse_vfio(d.vfio, pci);
    let lg = spec_lg_from_table(spec_opt_or_empty(d.looking_glass));
    let scream = spec_scream_from_table(spec_opt_or_empty(d.scream));
    let spice = spec_spice_from_table(spec_opt_or_empty(d.spice));
    let pulse = spec_pulse_from_table(spec_opt_or_empty(d.pulse));
    if kvm is Some && memory is Some && cpu is Some && uefi is Some && disks is Some && vfio
        is Some && lg is Some && scream is Some && spice is Some && pulse is Some {
        let base = InstanceConfigView {
            name,
            arch: "x86_64"@,
            chipset: "q35"@,
            kvm: kvm->Some_0,
            memory: memory->Some_0,
            cpu: cpu->Some_0,
            disks: disks->Some_0,
            uefi: uefi->Some_0,
            vfio: vfio->Some_0,
            looking_glass: lg->Some_0,
            scream: scream->Some_0,
            pulse: pulse->Some_0,
            spice: spice->Some_0,
        };
        let feats = match spec_get(d.machine, "features"@) {
            Some(SpecConfigValue::StrList(l)) => l,
            _ => Seq::empty(),
        };
        Some(spec_apply_features(base, feats))
    } else {
        None
    }
}

impl InstanceConfig {
    /// The configuration a document starts from: two gibibytes of memory,
    /// two CPUs, the q35 chipset, KVM on.
    pub fn default() -> (r: InstanceConfig)
        ensures
            r@ == spec_default_config(),
    {
        let r = InstanceConfig {
            name: String::from_str("vore"),
            arch: String::from_str("x86_64"),
            chipset: String::from_str("q35"),
            kvm: true,
            memory: 2147483648,
            cpu: CpuConfig::default(),
            disks: Vec::new(),
            uefi: UefiConfig { enabled: false },
            vfio: Vec::new(),
            looking_glass: LookingGlassConfig::default(),
            scream: ScreamConfig::default(),
            pulse: PulseConfig { enabled: false },
            spice: SpiceConfig::default(),
        };
        proof {
            assert(r.disks@.map_values(|d: DiskConfig| d@) =~= Seq::<DiskConfigView>::empty());
            assert(r.vfio@ =~= Seq::<VfioConfig>::empty());
        }
        r
    }

    /// Reads a whole document into a configuration, against the host's
    /// device list.
    #[verifier::rlimit(100)]
    #[verifier::spinoff_prover]
    pub fn from_config(
        doc: &crate::config_model::ConfigDoc,
        pci: &Vec<PciDevice>,
    ) -> (r: Result<InstanceConfig, VoreError>)
        ensures
            (r is Ok) == (spec_from_config(doc@, pci@) is Some),
            r is Ok ==> r->Ok_0@ == spec_from_config(doc@, pci@)->Some_0,
    {
        let mut cfg = InstanceConfig::default();
        match doc.machine.get("name") {
            Some(ConfigValue::Str(x)) => {
                cfg.name = x.clone();
            },
            Some(ConfigValue::Int(v)) => {
                cfg.name = crate::config_model::int_string(*v);
            },
            _ => {},
        }
        if let Some(b) = doc.machine.get_bool("kvm", "machine.kvm")? {
            cfg.kvm = b;
        }
        if let Some(mem) = doc.machine.get_string("memory", "machine.memory")? {
            cfg.memory = parse_size(mem.as_str())?;
        }
        if let Some(cpu_table) = &doc.cpu {
            cfg.cpu.apply_table(cpu_table)?;
        }
        cfg.disks = parse_disk_tables(&doc.disk)?;
        if let Some(uefi_table) = &doc.uefi {
            cfg.uefi.apply_table(uefi_table)?;
        }
        cfg.vfio = parse_vfio_tables(&doc.vfio, pci)?;
        let empty = ConfigTable::new();
        cfg.looking_glass = match &doc.looking_glass {
            Some(t) => LookingGlassConfig::from_table(t)?,
            None => LookingGlassConfig::from_table(&empty)?,
        };
        cfg.scream = match &doc.scream {
            Some(t) => ScreamConfig::from_table(t)?,
            None => ScreamConfig::from_table(&empty)?,
        };
        cfg.spice = match &doc.spice {
            Some(t) => SpiceConfig::from_table(t)?,
            None => SpiceConfig::from_table(&empty)?,
        };
        cfg.pulse = match &doc.pulse {
            Some(t) => PulseConfig::from_table(t)?,
            None => PulseConfig::from_table(&empty)?,
        };
        let feats: Vec<String> = match doc.machine.get_str_list("features") {
            Some(l) => l,
            None => Vec::new(),
        };
        proof {
            match spec_get(doc@.machine, "features"@) {
                Some(SpecConfigValue::StrList(l)) => {
                    assert(feats@.map_values(|x: String| x@) == l);
                },
                _ => {
                    assert(feats@.map_values(|x: String| x@) =~= Seq::<Seq<char>>::empty());
                },
            }
        }
        apply_feature_names(&mut cfg, &feats);
        Ok(cfg)
    }
}

/// Reads every `[[disk]]` table, in order.
fn parse_disk_tables(tables: &Vec<ConfigTable>) -> (r: Result<Vec<DiskConfig>, VoreError>)
    ensures
        (r is Ok) == (spec_parse_disks(tables@.map_values(|t: ConfigTable| t@)) is Some),
        r is Ok ==> Some(r->Ok_0@.map_values(|d: DiskConfig| d@)) == spec_parse_disks(
            tables@.map_values(|t: ConfigTable| t@),
        ),
{
    let ghost ds = tables@.map_values(|t: ConfigTable| t@);
    let mut out: Vec<DiskConfig> = Vec::new();
    let mut i: usize = 0;
    proof {
        assert(ds.take(0) =~= Seq::<Seq<(Seq<char>, SpecConfigValue)>>::empty());
        assert(out@.map_values(|d: DiskConfig| d@) =~= Seq::<DiskConfigView>::empty());
    }
    while i < tables.len()
        invariant
            i <= tables@.len(),
            ds == tables@.map_values(|t: ConfigTable| t@),
            spec_parse_disks(ds.take(i as int)) == Some(out@.map_values(|d: DiskConfig| d@)),
        decreases tables.len() - i,
    {
        proof {
            assert(ds.take(i + 1).drop_last() =~= ds.take(i as int));
            assert(ds.take(i + 1).last() == ds[i as int]);
        }
        let d = match DiskConfig::from_table(&tables[i]) {
            Ok(d) => d,
            Err(e) => {
                proof {
                    lemma_parse_disks_fail(ds, i as int);
                }
                return Err(e);
            },
        };
        let ghost before = out@.map_values(|d: DiskConfig| d@);
        out.push(d);
        proof {
            assert(out@.map_values(|d: DiskConfig| d@) =~= before.push(d@));
        }
        i = i + 1;
    }
    proof {
        assert(ds.take(ds.len() as int) =~= ds);
    }
    Ok(out)
}

/// Reads every `[[vfio]]` table, in order, against the host's devices.
fn parse_vfio_tables(tables: &Vec<ConfigTable>, pci: &Vec<PciDevice>) -> (r: Result<
    Vec<VfioConfig>,
    VoreError,
>)
    ensures
        (r is Ok) == (spec_parse_vfio(tables@.map_values(|t: ConfigTable| t@), pci@) is Some),
        r is Ok ==> Some(r->Ok_0@) == spec_parse_vfio(
            tables@.map_values(|t: ConfigTable| t@),
            pci@,
        ),
{
    let ghost vs = tables@.map_values(|t: ConfigTable| t@);
    let mut out: Vec<VfioConfig> = Vec::new();
    let mut i: usize = 0;
    proof {
        assert(vs.take(0) =~= Seq::<Seq<(Seq<char>, SpecConfigValue)>>::empty());
        assert(out@ =~= Seq::<VfioConfig>::empty());
    }
    while i < tables.len()
        invariant
            i <= tables@.len(),
            vs == tables@.map_values(|t: ConfigTable| t@),
            spec_parse_vfio(vs.take(i as int), pci@) == Some(out@),
        decreases tables.len() - i,
    {
        proof {
            assert(vs.take(i + 1).drop_last() =~= vs.take(i as int));
            assert(vs.take(i + 1).last() == vs[i as int]);
        }
        let v = match VfioConfig::from_table(&tables[i], pci) {
            Ok(v) => v,
            Err(e) => {
                proof {
                    lemma_parse_vfio_fail(vs, pci@, i as int);
                }
                return Err(e);
            },
        };
        out.push(v);
        i = i + 1;
    }
    proof {
        assert(vs.take(vs.len() as int) =~= vs);
    }
    Ok(out)
}

/// Toggles the feature blocks the `machine.features` list names.
fn apply_feature_names(cfg: &mut InstanceConfig, feats: &Vec<String>)
    ensures
        final(cfg)@ == spec_apply_features(old(cfg)@, feats@.map_values(|x: String| x@)),
{
    let ghost base = cfg@;
    let ghost fseq = feats@.map_values(|x: String| x@);
    let mut k: usize = 0;
    proof {
        assert(fseq.skip(0) =~= fseq);
    }
    while k < feats.len()
        invariant
            k <= feats@.len(),
            fseq == feats@.map_values(|x: String| x@),
            spec_apply_features(base, fseq) == spec_apply_features(cfg@, fseq.skip(k as int)),
        decreases feats.len() - k,
    {
        let f = &feats[k];
        let ghost pre = cfg@;
        if crate::text::str_eq(f.as_str(), "looking-glass") {
            cfg.looking_glass.enabled = true;
        } else if crate::text::str_eq(f.as_str(), "spice") {
            cfg.spice.enabled = true;
        } else if crate::text::str_eq(f.as_str(), "scream") {
            cfg.scream.enabled = true;
        } else if crate::text::str_eq(f.as_str(), "uefi") {
            cfg.uefi.enabled = true;
        } else if crate::text::str_eq(f.as_str(), "pulse") {
            cfg.pulse.enabled = true;
        }
        proof {
            assert(cfg@ == spec_apply_feature(pre, fseq[k as int]));
            assert(fseq.skip(k as int)[0] == fseq[k as int]);
            assert(fseq.skip(k as int).drop_first() =~= fseq.skip(k as int + 1));
        }
        k = k + 1;
    }
    proof {
        assert(fseq.skip(fseq.len() as int) =~= Seq::<Seq<char>>::empty());
    }
}


// ---------------------------------------------------------------------------
// Serialization
// ---------------------------------------------------------------------------

/// Every number of the record fits the signed integers a document holds.
pub open spec fn spec_serializable(c: InstanceConfigView) -> bool {
    &&& c.cpu.amount <= i64::MAX
    &&& c.cpu.cores <= i64::MAX
    &&& c.cpu.threads <= i64::MAX
    &&& c.cpu.dies <= i64::MAX
    &&& c.cpu.sockets <= i64::MAX
    &&& c.looking_glass.width <= i64::MAX
    &&& c.looking_glass.height <= i64::MAX
    &&& c.looking_glass.bit_depth <= i64::MAX
    &&& c.scream.buffer_size <= i64::MAX
}

pub open spec fn spec_ser_machine(c: InstanceConfigView) -> Seq<(Seq<char>, SpecConfigValue)> {
    seq![
        ("name"@, SpecConfigValue::Str(c.name)),
        ("kvm"@, SpecConfigValue::Bool(c.kvm)),
        ("memory"@, SpecConfigValue::Str(crate::error::spec_dec_chars(c.memory as nat))),
    ]
}

pub open spec fn spec_ser_cpu(c: CpuConfig) -> Seq<(Seq<char>, SpecConfigValue)> {
    seq![
        ("amount"@, SpecConfigValue::Int(c.amount as i64)),
        ("cores"@, SpecConfigValue::Int(c.cores as i64)),
        ("threads"@, SpecConfigValue::Int(c.threads as i64)),
        ("dies"@, SpecConfigValue::Int(c.dies as i64)),
        ("sockets"@, SpecConfigValue::Int(c.sockets as i64)),
    ]
}

pub open spec fn spec_ser_disk(d: DiskConfigView) -> Seq<(Seq<char>, SpecConfigValue)> {
    seq![
        ("path"@, SpecConfigValue::Str(d.path)),
        ("type"@, SpecConfigValue::Str(d.disk_type)),
        ("preset"@, SpecConfigValue::Str(d.preset)),
        ("read-only"@, SpecConfigValue::Bool(d.read_only)),
    ]
}

pub open spec fn spec_ser_vfio(v: VfioConfig) -> Seq<(Seq<char>, SpecConfigValue)> {
    seq![
        ("address"@, SpecConfigValue::Str(crate::pci::spec_pci_string(v.address))),
        ("graphics"@, SpecConfigValue::Bool(v.graphics)),
        ("multifunction"@, SpecConfigValue::Bool(v.multifunction)),
    ]
}

pub open spec fn spec_ser_lg(c: LookingGlassConfigView) -> Seq<(Seq<char>, SpecConfigValue)> {
    seq![
        ("enabled"@, SpecConfigValue::Bool(c.enabled)),
        ("mem-path"@, SpecConfigValue::Str(c.mem_path)),
        ("width"@, SpecConfigValue::Int(c.width as i64)),
        ("height"@, SpecConfigValue::Int(c.height as i64)),
        ("bit-depth"@, SpecConfigValue::Int(c.bit_depth as i64)),
    ]
}

pub open spec fn spec_ser_scream(c: ScreamConfigView) -> Seq<(Seq<char>, SpecConfigValue)> {
    seq![
        ("enabled"@, SpecConfigValue::Bool(c.enabled)),
        ("mem-path"@, SpecConfigValue::Str(c.mem_path)),
        ("buffer-size"@, SpecConfigValue::Int(c.buffer_size as i64)),
    ]
}

pub open spec fn spec_ser_spice(c: SpiceConfigView) -> Seq<(Seq<char>, SpecConfigValue)> {
    seq![
        ("enabled"@, SpecConfigValue::Bool(c.enabled)),
        ("socket-path"@, SpecConfigValue::Str(c.socket_path)),
    ]
}

pub open spec fn spec_ser_uefi(c: UefiConfig) -> Seq<(Seq<char>, SpecConfigValue)> {
    seq![("enabled"@, SpecConfigValue::Bool(c.enabled))]
}

pub open spec fn spec_ser_pulse(c: PulseConfig) -> Seq<(Seq<char>, SpecConfigValue)> {
    seq![("enabled"@, SpecConfigValue::Bool(c.enabled))]
}

/// The canonical document for a configuration: explicit fields everywhere,
/// the framebuffer written as its geometry, no feature list.
pub open spec fn spec_serialize(c: InstanceConfigView) -> crate::config_model::SpecConfigDoc {
    crate::config_model::SpecConfigDoc {
        machine: spec_ser_machine(c),
        cpu: Some(spec_ser_cpu(c.cpu)),
        disk: c.disks.map_values(|d: DiskConfigView| spec_ser_disk(d)),
        uefi: Some(spec_ser_uefi(c.uefi)),
        vfio: c.vfio.map_values(|v: VfioConfig| spec_ser_vfio(v)),
        looking_glass: Some(spec_ser_lg(c.looking_glass)),
        scream: Some(spec_ser_scream(c.scream)),
        spice: Some(spec_ser_spice(c.spice)),
        pulse: Some(spec_ser_pulse(c.pulse)),
    }
}

impl InstanceConfig {
    /// Writes the configuration back as a document that parses to it again.
    pub fn serialize(&self) -> (r: crate::config_model::ConfigDoc)
        requires
            spec_serializable(self@),
        ensures
            r@ == spec_serialize(self@),
    {
        let mut machine = ConfigTable::new();
        machine.push(String::from_str("name"), ConfigValue::Str(self.name.clone()));
        machine.push(String::from_str("kvm"), ConfigValue::Bool(self.kvm));
        machine.push(
            String::from_str("memory"),
            ConfigValue::Str(crate::error::dec_string(self.memory)),
        );
        proof {
            assert(machine@ =~= spec_ser_machine(self@));
        }
        let mut cpu = ConfigTable::new();
        cpu.push(String::from_str("amount"), ConfigValue::Int(self.cpu.amount as i64));
        cpu.push(String::from_str("cores"), ConfigValue::Int(self.cpu.cores as i64));
        cpu.push(String::from_str("threads"), ConfigValue::Int(self.cpu.threads as i64));
        cpu.push(String::from_str("dies"), ConfigValue::Int(self.cpu.dies as i64));
        cpu.push(String::from_str("sockets"), ConfigValue::Int(self.cpu.sockets as i64));
        proof {
            assert(cpu@ =~= spec_ser_cpu(self@.cpu));
        }
        let mut disk: Vec<ConfigTable> = Vec::new();
        let mut i: usize = 0;
        proof {
            assert(disk@.map_values(|t: ConfigTable| t@) =~= self@.disks.map_values(
                |d: DiskConfigView| spec_ser_disk(d),
            ).take(0));
        }
        while i < self.disks.len()
            invariant
                i <= self.disks@.len(),
                self@.disks == self.disks@.map_values(|d: DiskConfig| d@),
                disk@.map_values(|t: ConfigTable| t@) =~= self@.disks.map_values(
                    |d: DiskConfigView| spec_ser_disk(d),
                ).take(i as int),
            decreases self.disks.len() - i,
        {
            let d = &self.disks[i];
            let mut t = ConfigTable::new();
            t.push(String::from_str("path"), ConfigValue::Str(d.path.clone()));
            t.push(String::from_str("type"), ConfigValue::Str(d.disk_type.clone()));
            t.push(String::from_str("preset"), ConfigValue::Str(d.preset.clone()));
            t.push(String::from_str("read-only"), ConfigValue::Bool(d.read_only));
            proof {
                assert(t@ =~= spec_ser_disk(self@.disks[i as int]));
            }
            let ghost before = disk@.map_values(|t: ConfigTable| t@);
            disk.push(t);
            proof {
                assert(disk@.map_values(|t: ConfigTable| t@) =~= before.push(t@));
                assert(before.push(t@) =~= self@.disks.map_values(
                    |d: DiskConfigView| spec_ser_disk(d),
                ).take(i + 1));
            }
            i = i + 1;
        }
        proof {
            let m = self@.disks.map_values(|d: DiskConfigView| spec_ser_disk(d));
            assert(m.take(m.len() as int) =~= m);
        }
        let mut vfio: Vec<ConfigTable> = Vec::new();
        let mut j: usize = 0;
        proof {
            assert(vfio@.map_values(|t: ConfigTable| t@) =~= self@.vfio.map_values(
                |v: VfioConfig| spec_ser_vfio(v),
            ).take(0));
        }
        while j < self.vfio.len()
            invariant
                j <= self.vfio@.len(),
                self@.vfio == self.vfio@,
                vfio@.map_values(|t: ConfigTable| t@) =~= self@.vfio.map_values(
                    |v: VfioConfig| spec_ser_vfio(v),
                ).take(j as int),
            decreases self.vfio.len() - j,
        {
            let v = &self.vfio[j];
            let mut t = ConfigTable::new();
            t.push(String::from_str("address"), ConfigValue::Str(v.address.to_string()));
            t.push(String::from_str("graphics"), ConfigValue::Bool(v.graphics));
            t.push(String::from_str("multifunction"), ConfigValue::Bool(v.multifunction));
            proof {
                assert(t@ =~= spec_ser_vfio(self@.vfio[j as int]));
            }
            let ghost before = vfio@.map_values(|t: ConfigTable| t@);
            vfio.push(t);
            proof {
                assert(vfio@.map_values(|t: ConfigTable| t@) =~= before.push(t@));
                assert(before.push(t@) =~= self@.vfio.map_values(
                    |v: VfioConfig| spec_ser_vfio(v),
                ).take(j + 1));
            }
            j = j + 1;
        }
        proof {
            let m = self@.vfio.map_values(|v: VfioConfig| spec_ser_vfio(v));
            assert(m.take(m.len() as int) =~= m);
        }
        let mut lg = ConfigTable::new();
        lg.push(String::from_str("enabled"), ConfigValue::Bool(self.looking_glass.enabled));
        lg.push(
            String::from_str("mem-path"),
            ConfigValue::Str(self.looking_glass.mem_path.clone()),
        );
        lg.push(String::from_str("width"), ConfigValue::Int(self.looking_glass.width as i64));
        lg.push(String::from_str("height"), ConfigValue::Int(self.looking_glass.height as i64));
        lg.push(
            String::from_str("bit-depth"),
            ConfigValue::Int(self.looking_glass.bit_depth as i64),
        );
        proof {
            assert(lg@ =~= spec_ser_lg(self@.looking_glass));
        }
        let mut scream = ConfigTable::new();
        scream.push(String::from_str("enabled"), ConfigValue::Bool(self.scream.enabled));
        scream.push(
            String::from_str("mem-path"),
            ConfigValue::Str(self.scream.mem_path.clone()),
        );
        scream.push(
            String::from_str("buffer-size"),
            ConfigValue::Int(self.scream.buffer_size as i64),
        );
        proof {
            assert(scream@ =~= spec_ser_scream(self@.scream));
        }
        let mut spice = ConfigTable::new();
        spice.push(String::from_str("enabled"), ConfigValue::Bool(self.spice.enabled));
        spice.push(
            String::from_str("socket-path"),
            ConfigValue::Str(self.spice.socket_path.clone()),
        );
        proof {
            assert(spice@ =~= spec_ser_spice(self@.spice));
        }
        let mut uefi = ConfigTable::new();
        uefi.push(String::from_str("enabled"), ConfigValue::Bool(self.uefi.enabled));
        proof {
            assert(uefi@ =~= spec_ser_uefi(self@.uefi));
        }
        let mut pulse = ConfigTable::new();
        pulse.push(String::from_str("enabled"), ConfigValue::Bool(self.pulse.enabled));
        proof {
            assert(pulse@ =~= spec_ser_pulse(self@.pulse));
        }
        crate::config_model::ConfigDoc {
            machine,
            cpu: Some(cpu),
            disk,
            uefi: Some(uefi),
            vfio,
            looking_glass: Some(lg),
            scream: Some(scream),
            spice: Some(spice),
            pulse: Some(pulse),
        }
    }
}


// ---------------------------------------------------------------------------
// The round trip
// ---------------------------------------------------------------------------

proof fn lemma_get1(
    t: Seq<(Seq<char>, SpecConfigValue)>,
    k0: Seq<char>,
    v0: SpecConfigValue,
    key: Seq<char>,
)
    requires
        t == seq![(k0, v0)],
    ensures
        spec_get(t, key) == (if key == k0 {
            Some(v0)
        } else {
            None::<SpecConfigValue>
        }),
{
    assert(t[0] == (k0, v0));
    if key != k0 {
        assert(t.drop_first() =~= Seq::<(Seq<char>, SpecConfigValue)>::empty());
        assert(t.drop_first().len() == 0);
        assert(spec_get(t.drop_first(), key) is None);
    }
}

proof fn lemma_get2(
    t: Seq<(Seq<char>, SpecConfigValue)>,
    k0: Seq<char>,
    v0: SpecConfigValue,
    k1: Seq<char>,
    v1: SpecConfigValue,
    key: Seq<char>,
)
    requires
        t == seq![(k0, v0), (k1, v1)],
    ensures
        spec_get(t, key) == (if key == k0 {
            Some(v0)
        } else if key == k1 {
            Some(v1)
        } else {
            None::<SpecConfigValue>
        }),
{
    assert(t[0] == (k0, v0));
    let t1 = t.drop_first();
    assert(t1 =~= seq![(k1, v1)]);
    lemma_get1(t1, k1, v1, key);
}

proof fn lemma_get3(
    t: Seq<(Seq<char>, SpecConfigValue)>,
    k0: Seq<char>,
    v0: SpecConfigValue,
    k1: Seq<char>,
    v1: SpecConfigValue,
    k2: Seq<char>,
    v2: SpecConfigValue,
    key: Seq<char>,
)
    requires
        t == seq![(k0, v0), (k1, v1), (k2, v2)],
    ensures
        spec_get(t, key) == (if key == k0 {
            Some(v0)
        } else if key == k1 {
            Some(v1)
        } else if key == k2 {
            Some(v2)
        } else {
            None::<SpecConfigValue>
        }),
{
    assert(t[0] == (k0, v0));
    let t1 = t.drop_first();
    assert(t1 =~= seq![(k1, v1), (k2, v2)]);
    lemma_get2(t1, k1, v1, k2, v2, key);
}

proof fn lemma_get4(
    t: Seq<(Seq<char>, SpecConfigValue)>,
    k0: Seq<char>,
    v0: SpecConfigValue,
    k1: Seq<char>,
    v1: SpecConfigValue,
    k2: Seq<char>,
    v2: SpecConfigValue,
    k3: Seq<char>,
    v3: SpecConfigValue,
    key: Seq<char>,
)
    requires
        t == seq![(k0, v0), (k1, v1), (k2, v2), (k3, v3)],
    ensures
        spec_get(t, key) == (if key == k0 {
            Some(v0)
        } else if key == k1 {
            Some(v1)
        } else if key == k2 {
            Some(v2)
        } else if key == k3 {
            Some(v3)
        } else {
            None::<SpecConfigValue>
        }),
{
    assert(t[0] == (k0, v0));
    let t1 = t.drop_first();
    assert(t1 =~= seq![(k1, v1), (k2, v2), (k3, v3)]);
    lemma_get3(t1, k1, v1, k2, v2, k3, v3, key);
}

proof fn lemma_get5(
    t: Seq<(Seq<char>, SpecConfigValue)>,
    k0: Seq<char>,
    v0: SpecConfigValue,
    k1: Seq<char>,
    v1: SpecConfigValue,
    k2: Seq<char>,
    v2: SpecConfigValue,
    k3: Seq<char>,
    v3: SpecConfigValue,
    k4: Seq<char>,
    v4: SpecConfigValue,
    key: Seq<char>,
)
    requires
        t == seq![(k0, v0), (k1, v1), (k2, v2), (k3, v3), (k4, v4)],
    ensures
        spec_get(t, key) == (if key == k0 {
            Some(v0)
        } else if key == k1 {
            Some(v1)
        } else if key == k2 {
            Some(v2)
        } else if key == k3 {
            Some(v3)
        } else if key == k4 {
            Some(v4)
        } else {
            None::<SpecConfigValue>
        }),
{
    assert(t[0] == (k0, v0));
    let t1 = t.drop_first();
    assert(t1 =~= seq![(k1, v1), (k2, v2), (k3, v3), (k4, v4)]);
    lemma_get4(t1, k1, v1, k2, v2, k3, v3, k4, v4, key);
}

/// A rendered decimal number reads back as itself through the size parser.
proof fn lemma_parse_size_of_decimal(m: u64)
    ensures
        spec_parse_size(
            vstd::utf8::encode_utf8(crate::error::spec_dec_chars(m as nat)),
        ) == Some(m),
{
    let digits = crate::text::spec_format_u64_dec(m as nat);
    crate::text::lemma_format_u64_dec_digits(m as nat);
    assert forall|i: int| 0 <= i < digits.len() implies digits[i] < 128 by {
        assert(crate::text::spec_is_digit(digits[i]));
    }
    crate::text::lemma_ascii_bytes_chars(digits);
    assert(vstd::utf8::encode_utf8(crate::error::spec_dec_chars(m as nat)) =~= digits);
    assert(spec_lower_bytes(digits) =~= digits);
    crate::text::lemma_strip_spaces_id(digits);
    assert(spec_size_normal(digits) == digits);
    assert(!spec_is_lower_alpha(digits.last()));
    crate::text::lemma_dec_round_trip(m);
}

proof fn lemma_rt_disk(d: DiskConfigView)
    ensures
        spec_disk_from_table(spec_ser_disk(d)) == Some(d),
{
    broadcast use vstd::string::group_string_axioms;

    reveal_strlit("path");
    reveal_strlit("type");
    reveal_strlit("preset");
    reveal_strlit("read-only");
    let t = spec_ser_disk(d);
    assert("path"@.len() == 4 && "type"@.len() == 4 && "preset"@.len() == 6 && "read-only"@.len()
        == 9);
    assert("path"@[0] == 'p' && "type"@[0] == 't');
    lemma_get4(
        t,
        "path"@,
        SpecConfigValue::Str(d.path),
        "type"@,
        SpecConfigValue::Str(d.disk_type),
        "preset"@,
        SpecConfigValue::Str(d.preset),
        "read-only"@,
        SpecConfigValue::Bool(d.read_only),
        "path"@,
    );
    lemma_get4(
        t,
        "path"@,
        SpecConfigValue::Str(d.path),
        "type"@,
        SpecConfigValue::Str(d.disk_type),
        "preset"@,
        SpecConfigValue::Str(d.preset),
        "read-only"@,
        SpecConfigValue::Bool(d.read_only),
        "type"@,
    );
    lemma_get4(
        t,
        "path"@,
        SpecConfigValue::Str(d.path),
        "type"@,
        SpecConfigValue::Str(d.disk_type),
        "preset"@,
        SpecConfigValue::Str(d.preset),
        "read-only"@,
        SpecConfigValue::Bool(d.read_only),
        "preset"@,
    );
    lemma_get4(
        t,
        "path"@,
        SpecConfigValue::Str(d.path),
        "type"@,
        SpecConfigValue::Str(d.disk_type),
        "preset"@,
        SpecConfigValue::Str(d.preset),
        "read-only"@,
        SpecConfigValue::Bool(d.read_only),
        "read-only"@,
    );
}

proof fn lemma_rt_disks(ds: Seq<DiskConfigView>)
    ensures
        spec_parse_disks(ds.map_values(|d: DiskConfigView| spec_ser_disk(d))) == Some(ds),
    decreases ds.len(),
{
    let m = ds.map_values(|d: DiskConfigView| spec_ser_disk(d));
    if ds.len() == 0 {
        assert(m =~= Seq::<Seq<(Seq<char>, SpecConfigValue)>>::empty());
        assert(Seq::<DiskConfigView>::empty() =~= ds);
    } else {
        lemma_rt_disks(ds.drop_last());
        lemma_rt_disk(ds.last());
        assert(m.drop_last() =~= ds.drop_last().map_values(
            |d: DiskConfigView| spec_ser_disk(d),
        ));
        assert(m.last() == spec_ser_disk(ds.last()));
        assert(ds.drop_last().push(ds.last()) =~= ds);
    }
}

proof fn lemma_rt_vfio_entry(v: VfioConfig, pci: Seq<PciDevice>)
    requires
        v.vendor is None,
        v.device is None,
        v.index == 0,
    ensures
        spec_vfio_from_table(spec_ser_vfio(v), pci) == Some(v),
{
    broadcast use vstd::string::group_string_axioms;

    reveal_strlit("addr");
    reveal_strlit("address");
    reveal_strlit("vendor");
    reveal_strlit("device");
    reveal_strlit("index");
    reveal_strlit("graphics");
    reveal_strlit("multifunction");
    let t = spec_ser_vfio(v);
    assert("addr"@.len() == 4 && "address"@.len() == 7 && "vendor"@.len() == 6 && "device"@.len()
        == 6 && "index"@.len() == 5 && "graphics"@.len() == 8 && "multifunction"@.len() == 13);
    assert("vendor"@[0] == 'v' && "device"@[0] == 'd');
    let astr = crate::pci::spec_pci_string(v.address);
    lemma_get3(
        t,
        "address"@,
        SpecConfigValue::Str(astr),
        "graphics"@,
        SpecConfigValue::Bool(v.graphics),
        "multifunction"@,
        SpecConfigValue::Bool(v.multifunction),
        "addr"@,
    );
    lemma_get3(
        t,
        "address"@,
        SpecConfigValue::Str(astr),
        "graphics"@,
        SpecConfigValue::Bool(v.graphics),
        "multifunction"@,
        SpecConfigValue::Bool(v.multifunction),
        "address"@,
    );
    lemma_get3(
        t,
        "address"@,
        SpecConfigValue::Str(astr),
        "graphics"@,
        SpecConfigValue::Bool(v.graphics),
        "multifunction"@,
        SpecConfigValue::Bool(v.multifunction),
        "vendor"@,
    );
    lemma_get3(
        t,
        "address"@,
        SpecConfigValue::Str(astr),
        "graphics"@,
        SpecConfigValue::Bool(v.graphics),
        "multifunction"@,
        SpecConfigValue::Bool(v.multifunction),
        "device"@,
    );
    lemma_get3(
        t,
        "address"@,
        SpecConfigValue::Str(astr),
        "graphics"@,
        SpecConfigValue::Bool(v.graphics),
        "multifunction"@,
        SpecConfigValue::Bool(v.multifunction),
        "index"@,
    );
    lemma_get3(
        t,
        "address"@,
        SpecConfigValue::Str(astr),
        "graphics"@,
        SpecConfigValue::Bool(v.graphics),
        "multifunction"@,
        SpecConfigValue::Bool(v.multifunction),
        "graphics"@,
    );
    lemma_get3(
        t,
        "address"@,
        SpecConfigValue::Str(astr),
        "graphics"@,
        SpecConfigValue::Bool(v.graphics),
        "multifunction"@,
        SpecConfigValue::Bool(v.multifunction),
        "multifunction"@,
    );
    // the rendered address reads back as itself
    crate::pci::lemma_format_pci_ascii(v.address);
    crate::text::lemma_ascii_bytes_chars(crate::pci::spec_format_pci(v.address));
    assert(vstd::utf8::encode_utf8(astr) =~= crate::pci::spec_format_pci(v.address));
    crate::pci::lemma_pci_round_trip(v.address);
}

proof fn lemma_rt_vfios(vs: Seq<VfioConfig>, pci: Seq<PciDevice>)
    requires
        forall|i: int| 0 <= i < vs.len() ==> (#[trigger] vs[i]).vendor is None && vs[i].device
            is None && vs[i].index == 0,
    ensures
        spec_parse_vfio(vs.map_values(|v: VfioConfig| spec_ser_vfio(v)), pci) == Some(vs),
    decreases vs.len(),
{
    let m = vs.map_values(|v: VfioConfig| spec_ser_vfio(v));
    if vs.len() == 0 {
        assert(m =~= Seq::<Seq<(Seq<char>, SpecConfigValue)>>::empty());
        assert(Seq::<VfioConfig>::empty() =~= vs);
    } else {
        lemma_rt_vfios(vs.drop_last(), pci);
        lemma_rt_vfio_entry(vs.last(), pci);
        assert(m.drop_last() =~= vs.drop_last().map_values(|v: VfioConfig| spec_ser_vfio(v)));
        assert(m.last() == spec_ser_vfio(vs.last()));
        assert(vs.drop_last().push(vs.last()) =~= vs);
    }
}

proof fn lemma_rt_cpu(c: CpuConfig)
    requires
        c.amount <= i64::MAX,
        c.cores <= i64::MAX,
        c.threads <= i64::MAX,
        c.dies <= i64::MAX,
        c.sockets <= i64::MAX,
        c.amount as nat == spec_cpu_product(c.sockets, c.dies, c.cores, c.threads),
    ensures
        spec_cpu_apply(spec_default_cpu(), spec_ser_cpu(c)) == Some(c),
{
    broadcast use vstd::string::group_string_axioms;

    reveal_strlit("amount");
    reveal_strlit("cores");
    reveal_strlit("threads");
    reveal_strlit("dies");
    reveal_strlit("sockets");
    let t = spec_ser_cpu(c);
    assert("amount"@.len() == 6 && "cores"@.len() == 5 && "threads"@.len() == 7 && "dies"@.len()
        == 4 && "sockets"@.len() == 7);
    assert("threads"@[0] == 't' && "sockets"@[0] == 's');
    lemma_get5(
        t,
        "amount"@,
        SpecConfigValue::Int(c.amount as i64),
        "cores"@,
        SpecConfigValue::Int(c.cores as i64),
        "threads"@,
        SpecConfigValue::Int(c.threads as i64),
        "dies"@,
        SpecConfigValue::Int(c.dies as i64),
        "sockets"@,
        SpecConfigValue::Int(c.sockets as i64),
        "amount"@,
    );
    lemma_get5(
        t,
        "amount"@,
        SpecConfigValue::Int(c.amount as i64),
        "cores"@,
        SpecConfigValue::Int(c.cores as i64),
        "threads"@,
        SpecConfigValue::Int(c.threads as i64),
        "dies"@,
        SpecConfigValue::Int(c.dies as i64),
        "sockets"@,
        SpecConfigValue::Int(c.sockets as i64),
        "cores"@,
    );
    lemma_get5(
        t,
        "amount"@,
        SpecConfigValue::Int(c.amount as i64),
        "cores"@,
        SpecConfigValue::Int(c.cores as i64),
        "threads"@,
        SpecConfigValue::Int(c.threads as i64),
        "dies"@,
        SpecConfigValue::Int(c.dies as i64),
        "sockets"@,
        SpecConfigValue::Int(c.sockets as i64),
        "threads"@,
    );
    lemma_get5(
        t,
        "amount"@,
        SpecConfigValue::Int(c.amount as i64),
        "cores"@,
        SpecConfigValue::Int(c.cores as i64),
        "threads"@,
        SpecConfigValue::Int(c.threads as i64),
        "dies"@,
        SpecConfigValue::Int(c.dies as i64),
        "sockets"@,
        SpecConfigValue::Int(c.sockets as i64),
        "dies"@,
    );
    lemma_get5(
        t,
        "amount"@,
        SpecConfigValue::Int(c.amount as i64),
        "cores"@,
        SpecConfigValue::Int(c.cores as i64),
        "threads"@,
        SpecConfigValue::Int(c.threads as i64),
        "dies"@,
        SpecConfigValue::Int(c.dies as i64),
        "sockets"@,
        SpecConfigValue::Int(c.sockets as i64),
        "sockets"@,
    );
}

proof fn lemma_rt_lg(c: LookingGlassConfigView)
    requires
        c.width <= i64::MAX,
        c.height <= i64::MAX,
        c.bit_depth <= i64::MAX,
        spec_lg_dims_fit(c.width, c.height, c.bit_depth),
        c.buffer_size as nat == spec_round_pow2(
            4,
            spec_lg_min_needed(c.width, c.height, c.bit_depth),
        ),
    ensures
        spec_lg_from_table(spec_ser_lg(c)) == Some(c),
{
    broadcast use vstd::string::group_string_axioms;

    reveal_strlit("enabled");
    reveal_strlit("mem-path");
    reveal_strlit("width");
    reveal_strlit("height");
    reveal_strlit("bit-depth");
    reveal_strlit("buffer-size");
    let t = spec_ser_lg(c);
    assert("enabled"@.len() == 7 && "mem-path"@.len() == 8 && "width"@.len() == 5
        && "height"@.len() == 6 && "bit-depth"@.len() == 9 && "buffer-size"@.len() == 11);
    lemma_get5(
        t,
        "enabled"@,
        SpecConfigValue::Bool(c.enabled),
        "mem-path"@,
        SpecConfigValue::Str(c.mem_path),
        "width"@,
        SpecConfigValue::Int(c.width as i64),
        "height"@,
        SpecConfigValue::Int(c.height as i64),
        "bit-depth"@,
        SpecConfigValue::Int(c.bit_depth as i64),
        "enabled"@,
    );
    lemma_get5(
        t,
        "enabled"@,
        SpecConfigValue::Bool(c.enabled),
        "mem-path"@,
        SpecConfigValue::Str(c.mem_path),
        "width"@,
        SpecConfigValue::Int(c.width as i64),
        "height"@,
        SpecConfigValue::Int(c.height as i64),
        "bit-depth"@,
        SpecConfigValue::Int(c.bit_depth as i64),
        "mem-path"@,
    );
    lemma_get5(
        t,
        "enabled"@,
        SpecConfigValue::Bool(c.enabled),
        "mem-path"@,
        SpecConfigValue::Str(c.mem_path),
        "width"@,
        SpecConfigValue::Int(c.width as i64),
        "height"@,
        SpecConfigValue::Int(c.height as i64),
        "bit-depth"@,
        SpecConfigValue::Int(c.bit_depth as i64),
        "width"@,
    );
    lemma_get5(
        t,
        "enabled"@,
        SpecConfigValue::Bool(c.enabled),
        "mem-path"@,
        SpecConfigValue::Str(c.mem_path),
        "width"@,
        SpecConfigValue::Int(c.width as i64),
        "height"@,
        SpecConfigValue::Int(c.height as i64),
        "bit-depth"@,
        SpecConfigValue::Int(c.bit_depth as i64),
        "height"@,
    );
    lemma_get5(
        t,
        "enabled"@,
        SpecConfigValue::Bool(c.enabled),
        "mem-path"@,
        SpecConfigValue::Str(c.mem_path),
        "width"@,
        SpecConfigValue::Int(c.width as i64),
        "height"@,
        SpecConfigValue::Int(c.height as i64),
        "bit-depth"@,
        SpecConfigValue::Int(c.bit_depth as i64),
        "bit-depth"@,
    );
    lemma_get5(
        t,
        "enabled"@,
        SpecConfigValue::Bool(c.enabled),
        "mem-path"@,
        SpecConfigValue::Str(c.mem_path),
        "width"@,
        SpecConfigValue::Int(c.width as i64),
        "height"@,
        SpecConfigValue::Int(c.height as i64),
        "bit-depth"@,
        SpecConfigValue::Int(c.bit_depth as i64),
        "buffer-size"@,
    );
}

proof fn lemma_rt_scream(c: ScreamConfigView)
    requires
        c.buffer_size <= i64::MAX,
    ensures
        spec_scream_from_table(spec_ser_scream(c)) == Some(c),
{
    broadcast use vstd::string::group_string_axioms;

    reveal_strlit("enabled");
    reveal_strlit("mem-path");
    reveal_strlit("buffer-size");
    let t = spec_ser_scream(c);
    assert("enabled"@.len() == 7 && "mem-path"@.len() == 8 && "buffer-size"@.len() == 11);
    lemma_get3(
        t,
        "enabled"@,
        SpecConfigValue::Bool(c.enabled),
        "mem-path"@,
        SpecConfigValue::Str(c.mem_path),
        "buffer-size"@,
        SpecConfigValue::Int(c.buffer_size as i64),
        "enabled"@,
    );
    lemma_get3(
        t,
        "enabled"@,
        SpecConfigValue::Bool(c.enabled),
        "mem-path"@,
        SpecConfigValue::Str(c.mem_path),
        "buffer-size"@,
        SpecConfigValue::Int(c.buffer_size as i64),
        "mem-path"@,
    );
    lemma_get3(
        t,
        "enabled"@,
        SpecConfigValue::Bool(c.enabled),
        "mem-path"@,
        SpecConfigValue::Str(c.mem_path),
        "buffer-size"@,
        SpecConfigValue::Int(c.buffer_size as i64),
        "buffer-size"@,
    );
}

proof fn lemma_rt_spice(c: SpiceConfigView)
    ensures
        spec_spice_from_table(spec_ser_spice(c)) == Some(c),
{
    broadcast use vstd::string::group_string_axioms;

    reveal_strlit("enabled");
    reveal_strlit("socket-path");
    let t = spec_ser_spice(c);
    assert("enabled"@.len() == 7 && "socket-path"@.len() == 11);
    lemma_get2(
        t,
        "enabled"@,
        SpecConfigValue::Bool(c.enabled),
        "socket-path"@,
        SpecConfigValue::Str(c.socket_path),
        "enabled"@,
    );
    lemma_get2(
        t,
        "enabled"@,
        SpecConfigValue::Bool(c.enabled),
        "socket-path"@,
        SpecConfigValue::Str(c.socket_path),
        "socket-path"@,
    );
}

/// A valid configuration: one whose numbers fit the document format, whose
/// topology and framebuffer obey their derivation rules, whose machine type
/// is the native one, and whose VFIO entries have settled on an address.
pub open spec fn spec_valid_config(c: InstanceConfigView) -> bool {
    &&& spec_serializable(c)
    &&& c.arch == "x86_64"@
    &&& c.chipset == "q35"@
    &&& c.cpu.amount as nat == spec_cpu_product(c.cpu.sockets, c.cpu.dies, c.cpu.cores, c.cpu.threads)
    &&& spec_lg_dims_fit(c.looking_glass.width, c.looking_glass.height, c.looking_glass.bit_depth)
    &&& c.looking_glass.buffer_size as nat == spec_round_pow2(
        4,
        spec_lg_min_needed(c.looking_glass.width, c.looking_glass.height, c.looking_glass.bit_depth),
    )
    &&& forall|i: int| 0 <= i < c.vfio.len() ==> (#[trigger] c.vfio[i]).vendor is None
        && c.vfio[i].device is None && c.vfio[i].index == 0
}

/// Serialization round trip: parsing the document a valid configuration
/// serializes to gives the configuration back, whatever the host's devices.
pub proof fn lemma_config_round_trip(c: InstanceConfigView, pci: Seq<PciDevice>)
    requires
        spec_valid_config(c),
    ensures
        spec_from_config(spec_serialize(c), pci) == Some(c),
{
    broadcast use vstd::string::group_string_axioms;

    reveal_strlit("name");
    reveal_strlit("kvm");
    reveal_strlit("memory");
    reveal_strlit("features");
    reveal_strlit("enabled");
    let d = spec_serialize(c);
    let m = spec_ser_machine(c);
    assert("name"@.len() == 4 && "kvm"@.len() == 3 && "memory"@.len() == 6 && "features"@.len()
        == 8 && "enabled"@.len() == 7);
    lemma_get3(
        m,
        "name"@,
        SpecConfigValue::Str(c.name),
        "kvm"@,
        SpecConfigValue::Bool(c.kvm),
        "memory"@,
        SpecConfigValue::Str(crate::error::spec_dec_chars(c.memory as nat)),
        "name"@,
    );
    lemma_get3(
        m,
        "name"@,
        SpecConfigValue::Str(c.name),
        "kvm"@,
        SpecConfigValue::Bool(c.kvm),
        "memory"@,
        SpecConfigValue::Str(crate::error::spec_dec_chars(c.memory as nat)),
        "kvm"@,
    );
    lemma_get3(
        m,
        "name"@,
        SpecConfigValue::Str(c.name),
        "kvm"@,
        SpecConfigValue::Bool(c.kvm),
        "memory"@,
        SpecConfigValue::Str(crate::error::spec_dec_chars(c.memory as nat)),
        "memory"@,
    );
    lemma_get3(
        m,
        "name"@,
        SpecConfigValue::Str(c.name),
        "kvm"@,
        SpecConfigValue::Bool(c.kvm),
        "memory"@,
        SpecConfigValue::Str(crate::error::spec_dec_chars(c.memory as nat)),
        "features"@,
    );
    lemma_parse_size_of_decimal(c.memory);
    lemma_rt_cpu(c.cpu);
    lemma_rt_disks(c.disks);
    lemma_rt_vfios(c.vfio, pci);
    lemma_rt_lg(c.looking_glass);
    lemma_rt_scream(c.scream);
    lemma_rt_spice(c.spice);
    // the single-toggle tables
    lemma_get1(
        spec_ser_uefi(c.uefi),
        "enabled"@,
        SpecConfigValue::Bool(c.uefi.enabled),
        "enabled"@,
    );
    lemma_get1(
        spec_ser_pulse(c.pulse),
        "enabled"@,
        SpecConfigValue::Bool(c.pulse.enabled),
        "enabled"@,
    );
    assert(spec_uefi_apply(UefiConfig { enabled: false }, spec_ser_uefi(c.uefi)) == Some(
        c.uefi,
    ));
    assert(spec_pulse_from_table(spec_ser_pulse(c.pulse)) == Some(c.pulse));
    // no feature list is written, so nothing toggles
    let parsed = spec_from_config(d, pci);
    assert(parsed is Some);
    assert(parsed->Some_0 == c);
}



impl DiskConfig {
    /// A copy with the same meaning.
    pub fn duplicate(&self) -> (r: DiskConfig)
        ensures
            r@ == self@,
    {
        DiskConfig {
            disk_type: self.disk_type.clone(),
            preset: self.preset.clone(),
            path: self.path.clone(),
            read_only: self.read_only,
        }
    }
}

impl InstanceConfig {
    /// A field-by-field copy whose meaning is known to be the same.
    pub fn duplicate(&self) -> (r: InstanceConfig)
        ensures
            r@ == self@,
    {
        let mut disks: Vec<DiskConfig> = Vec::new();
        let mut i: usize = 0;
        proof {
            assert(disks@.map_values(|d: DiskConfig| d@) =~= self@.disks.take(0));
        }
        while i < self.disks.len()
            invariant
                i <= self.disks@.len(),
                self@.disks == self.disks@.map_values(|d: DiskConfig| d@),
                disks@.map_values(|d: DiskConfig| d@) =~= self@.disks.take(i as int),
            decreases self.disks.len() - i,
        {
            let copy = self.disks[i].duplicate();
            let ghost before = disks@.map_values(|d: DiskConfig| d@);
            disks.push(copy);
            proof {
                assert(disks@.map_values(|d: DiskConfig| d@) =~= before.push(copy@));
                assert(before.push(copy@) =~= self@.disks.take(i + 1));
            }
            i = i + 1;
        }
        proof {
            assert(self@.disks.take(self@.disks.len() as int) =~= self@.disks);
        }
        let mut vfio: Vec<VfioConfig> = Vec::new();
        let mut j: usize = 0;
        proof {
            assert(vfio@ =~= self.vfio@.take(0));
        }
        while j < self.vfio.len()
            invariant
                j <= self.vfio@.len(),
                vfio@ =~= self.vfio@.take(j as int),
            decreases self.vfio.len() - j,
        {
            proof {
                assert(self.vfio@.take(j + 1) =~= self.vfio@.take(j as int).push(
                    self.vfio@[j as int],
                ));
            }
            vfio.push(self.vfio[j]);
            j = j + 1;
        }
        proof {
            assert(self.vfio@.take(self.vfio@.len() as int) =~= self.vfio@);
        }
        InstanceConfig {
            name: self.name.clone(),
            arch: self.arch.clone(),
            chipset: self.chipset.clone(),
            kvm: self.kvm,
            memory: self.memory,
            cpu: self.cpu,
            disks,
            uefi: self.uefi,
            vfio,
            looking_glass: LookingGlassConfig {
                enabled: self.looking_glass.enabled,
                mem_path: self.looking_glass.mem_path.clone(),
                buffer_size: self.looking_glass.buffer_size,
                width: self.looking_glass.width,
                height: self.looking_glass.height,
                bit_depth: self.looking_glass.bit_depth,
            },
            scream: ScreamConfig {
                enabled: self.scream.enabled,
                mem_path: self.scream.mem_path.clone(),
                buffer_size: self.scream.buffer_size,
            },
            pulse: self.pulse,
            spice: SpiceConfig {
                enabled: self.spice.enabled,
                socket_path: self.spice.socket_path.clone(),
            },
        }
    }
}

} // verus!
