//! Processor identification: what the CPUID instruction reports, and the
//! features that the kernel reads from it.

use vstd::prelude::*;

verus! {

/// First extended leaf of CPUID; its `eax` is the highest extended leaf.
pub const EXT_LEAF_BASE: u32 = 0x8000_0000;

/// Extended leaf that describes power management, among it the invariant
/// time-stamp counter.
pub const EXT_LEAF_POWER: u32 = 0x8000_0007;

/// Runs CPUID for `leaf` and `sub` and returns `eax`, `ebx`, `ecx` and `edx`.
///
/// Calls `core::arch::x86_64::__cpuid_count`. What the processor answers is
/// a fact about the machine, so nothing is claimed of the result.
#[verifier::external_body]
pub fn cpuid(leaf: u32, sub: u32) -> (r: (u32, u32, u32, u32)) {
    let r = core::arch::x86_64::__cpuid_count(leaf, sub);
    (r.eax, r.ebx, r.ecx, r.edx)
}

/// Whether a processor whose highest basic leaf is `max` has leaf `leaf`.
pub fn leaf_within(leaf: u32, max: u32) -> (r: bool)
    ensures
        r == (leaf <= max),
{
    leaf <= max
}

/// Whether the processor has the basic leaf `leaf`: whether `leaf` is not
/// above the highest basic leaf that the processor reports. Which leaf that
/// is, the machine decides; leaf 0 is there on every machine.
pub fn has_leaf(leaf: u32) -> (r: bool)
    ensures
        exists|max: u32| r == #[trigger] within(leaf, max),
        leaf == 0 ==> r,
{
    let max = cpuid(0, 0).0;
    let r = leaf_within(leaf, max);
    assert(r == within(leaf, max));
    r
}

/// Whether bit `bit` of `word` is set.
pub open spec fn bit_set(word: u32, bit: u32) -> bool {
    (word >> bit) & 1 == 1
}

/// Whether a processor with highest extended leaf `max_ext` and with `edx` in
/// the power-management leaf has an invariant time-stamp counter: the leaf
/// exists and bit 8 of `edx` is set.
pub fn invariant_tsc_in(max_ext: u32, edx: u32) -> (r: bool)
    ensures
        r == (max_ext >= EXT_LEAF_POWER && bit_set(edx, 8)),
{
    assert((edx & (1u32 << 8) != 0) == ((edx >> 8) & 1 == 1)) by (bit_vector);
    max_ext >= EXT_LEAF_POWER && (edx & (1 << 8)) != 0
}

/// Whether the time-stamp counter runs at a constant rate in every power
/// state.
pub fn has_invariant_tsc() -> bool {
    let (max_ext, _, _, _) = cpuid(EXT_LEAF_BASE, 0);
    if max_ext < EXT_LEAF_POWER {
        return false;
    }
    let (_, _, _, edx) = cpuid(EXT_LEAF_POWER, 0);
    invariant_tsc_in(max_ext, edx)
}

/// Extended leaf that describes the extended features, among them
/// no-execute pages.
pub const EXT_LEAF_FEATURES: u32 = 0x8000_0001;

/// Whether a processor with highest extended leaf `max_ext` and with `edx` in
/// the extended feature leaf supports no-execute pages: the leaf exists and
/// bit 20 of `edx` is set.
pub fn nx_in(max_ext: u32, edx: u32) -> (r: bool)
    ensures
        r == (max_ext >= EXT_LEAF_FEATURES && bit_set(edx, 20)),
{
    assert((edx & (1u32 << 20) != 0) == ((edx >> 20) & 1 == 1)) by (bit_vector);
    max_ext >= EXT_LEAF_FEATURES && (edx & (1 << 20)) != 0
}

/// Whether the processor supports no-execute pages.
pub fn has_nx() -> bool {
    let (max_ext, _, _, _) = cpuid(EXT_LEAF_BASE, 0);
    if max_ext < EXT_LEAF_FEATURES {
        return false;
    }
    let (_, _, _, edx) = cpuid(EXT_LEAF_FEATURES, 0);
    nx_in(max_ext, edx)
}

/// Whether `ecx` of leaf 1 reports x2APIC support: bit 21.
pub fn x2apic_in(ecx: u32) -> (r: bool)
    ensures
        r == bit_set(ecx, 21),
{
    assert((ecx & (1u32 << 21) != 0) == ((ecx >> 21) & 1 == 1)) by (bit_vector);
    (ecx & (1 << 21)) != 0
}

/// Whether the processor supports the x2APIC.
pub fn has_x2apic() -> bool {
    let (_, _, ecx, _) = cpuid(1, 0);
    x2apic_in(ecx)
}

/// The frequency that the time-stamp leaf gives: the crystal frequency times
/// the ratio numerator over the denominator, the product capped at 64 bits.
/// There is none when one of the three is zero.
pub open spec fn crystal_hz(denom: u32, numer: u32, crystal: u32) -> Option<u64> {
    if denom != 0 && numer != 0 && crystal != 0 {
        Some((crystal as int * numer as int / denom as int) as u64)
    } else {
        None
    }
}

/// The frequency of the time-stamp counter from the registers of the
/// time-stamp leaf: `eax` the denominator, `ebx` the numerator and `ecx` the
/// crystal frequency in hertz.
pub fn tsc_hz_from_crystal(eax: u32, ebx: u32, ecx: u32) -> (r: Option<u64>)
    ensures
        r == crystal_hz(eax, ebx, ecx),
{
    let denom = eax as u64;
    let numer = ebx as u64;
    let crystal = ecx as u64;
    if denom != 0 && numer != 0 && crystal != 0 {
        assert(crystal * numer <= 0xffff_ffff * 0xffff_ffff) by (nonlinear_arith)
            requires
                crystal <= 0xffff_ffff,
                numer <= 0xffff_ffff,
        ;
        return Some(crystal * numer / denom);
    }
    None
}

/// The frequency that the frequency leaf gives: its base frequency in
/// megahertz as hertz. There is none when it is zero.
pub fn tsc_hz_from_base(eax: u32) -> (r: Option<u64>)
    ensures
        r == base_hz(eax),
{
    let mhz = eax as u64;
    if mhz != 0 {
        return Some(mhz * 1_000_000);
    }
    None
}

/// The frequency of the time-stamp counter in hertz, if the processor
/// reports it: from the time-stamp leaf where that leaf exists and is
/// filled in, else from the frequency leaf. What the leaves hold, the
/// machine decides; a frequency that comes back is one that the leaves can
/// report.
pub fn tsc_hz() -> (r: Option<u64>)
    ensures
        r matches Some(hz) ==> reportable(hz),
{
    if has_leaf(0x15) {
        let (eax, ebx, ecx, _) = cpuid(0x15, 0);
        let hz = tsc_hz_from_crystal(eax, ebx, ecx);
        if hz.is_some() {
            assert(crystal_hz(eax, ebx, ecx) == Some(hz.unwrap()));
            return hz;
        }
    }
    if has_leaf(0x16) {
        let (eax, _, _, _) = cpuid(0x16, 0);
        let hz = tsc_hz_from_base(eax);
        if hz.is_some() {
            assert(base_hz(eax) == Some(hz.unwrap()));
            return hz;
        }
    }
    None
}

/// Whether `leaf` is not above `max`.
pub open spec fn within(leaf: u32, max: u32) -> bool {
    leaf <= max
}

/// The frequency that the frequency leaf gives for a base frequency of
/// `mhz` megahertz: that many hertz. There is none when it is zero.
pub open spec fn base_hz(mhz: u32) -> Option<u64> {
    if mhz != 0 {
        Some((mhz * 1_000_000) as u64)
    } else {
        None
    }
}

/// Whether `hz` is a frequency that the two leaves can report: what the
/// time-stamp leaf gives for some values of its three registers, or what
/// the frequency leaf gives for some base frequency.
pub open spec fn reportable(hz: u64) -> bool {
    ||| exists|d: u32, n: u32, c: u32| #[trigger] crystal_hz(d, n, c) == Some(hz)
    ||| exists|mhz: u32| #[trigger] base_hz(mhz) == Some(hz)
}

} // verus!
