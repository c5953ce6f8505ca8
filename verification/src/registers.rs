//! Addresses of debug ports and access ports, and the semantic fields of
//! the hardware registers the protocol layer reads and writes.
//!
//! DP and AP registers are addressed by an 8-bit value split as 4 bank bits
//! and 4 address bits; the low 2 address bits are always zero. Only the
//! register at address 0x4 is banked. The SELECT register simultaneously
//! encodes the active AP, AP register bank and DP register bank.

use vstd::prelude::*;

verus! {

/// Identifies a physical debug port; multi-drop topologies address each
/// target by a 32-bit target selection value.
#[derive(Clone, Copy, Debug, PartialEq, Eq, Structural, Hash)]
pub enum DpAddress {
    /// The single debug port of a non-multi-drop topology.
    Default,
    /// One debug port of a multi-drop topology, by its TARGETSEL value.
    Multidrop(u32),
}

/// Identifies an access port: the debug port owning it and its index.
#[derive(Clone, Copy, Debug, PartialEq, Eq, Structural, Hash)]
pub struct ApAddress {
    /// The debug port this access port belongs to.
    pub dp: DpAddress,
    /// Zero-based port number of the access port within its debug port.
    pub ap: u8,
}

/// The two register spaces a raw transaction can address.
#[derive(Clone, Copy, Debug, PartialEq, Eq, Structural)]
pub enum PortType {
    DebugPort,
    AccessPort,
}

/// An access port of which nothing but the address is known yet.
#[derive(Clone, Copy, Debug, PartialEq, Eq, Structural)]
pub struct GenericAp {
    pub address: ApAddress,
}

impl GenericAp {
    pub fn ap_address(&self) -> (r: ApAddress)
        ensures
            r == self.address,
    {
        self.address
    }
}

/// An access port that was classified as a Memory AP.
#[derive(Clone, Copy, Debug, PartialEq, Eq, Structural)]
pub struct MemoryAp {
    pub address: ApAddress,
}

impl MemoryAp {
    pub fn ap_address(&self) -> (r: ApAddress)
        ensures
            r == self.address,
    {
        self.address
    }
}

/// DP register address of the control/status register (banked, bank 0).
pub const DP_CTRL_STAT: u8 = 0x4;
/// DP register address used for SELECT writes.
pub const DP_SELECT: u8 = 0x8;
/// DP register address used for ABORT writes.
pub const DP_ABORT: u8 = 0x0;
/// DP register address of the identification register (read of address 0).
pub const DP_DPIDR: u8 = 0x0;

/// AP register address of the control/status word register.
pub const AP_CSW: u8 = 0x00;
/// AP register address of the low base-address register.
pub const AP_BASE: u8 = 0xF8;
/// AP register address of the high base-address register.
pub const AP_BASE2: u8 = 0xF0;
/// AP register address of the identification register.
pub const AP_IDR: u8 = 0xFC;

/// The bank half of an 8-bit register address.
pub open spec fn spec_bank_of(addr: u8) -> u8 {
    addr >> 4
}

/// The address half of an 8-bit register address.
pub open spec fn spec_addr_of(addr: u8) -> u8 {
    addr & 0xF
}

/// Splits an 8-bit register address into its bank bits.
pub fn bank_of(addr: u8) -> (r: u8)
    ensures
        r == spec_bank_of(addr),
        r < 16,
{
    proof {
        assert(addr >> 4 < 16) by (bit_vector);
    }
    addr >> 4
}

/// Splits an 8-bit register address into its address bits.
pub fn addr_of(addr: u8) -> (r: u8)
    ensures
        r == spec_addr_of(addr),
        r < 16,
{
    proof {
        assert(addr & 0xF < 16) by (bit_vector);
    }
    addr & 0xF
}

/// Whether a DP register address depends on the selected DP bank: only the
/// register at address 0x4 is banked.
pub open spec fn spec_is_banked_dp_addr(addr: u8) -> bool {
    spec_addr_of(addr) == 4
}

/// The SELECT register value encoding an AP index, AP register bank and DP
/// register bank: APSEL in bits 31:24, APBANKSEL in bits 7:4, DPBANKSEL in
/// bits 3:0.
pub open spec fn spec_select_value(ap_sel: u8, ap_bank: u8, dp_bank: u8) -> u32 {
    ((ap_sel as u32) << 24) | (((ap_bank & 0xF) as u32) << 4) | ((dp_bank & 0xF) as u32)
}

/// Encodes a SELECT register value from the three selector fields.
pub fn select_value(ap_sel: u8, ap_bank: u8, dp_bank: u8) -> (r: u32)
    ensures
        r == spec_select_value(ap_sel, ap_bank, dp_bank),
{
    ((ap_sel as u32) << 24) | (((ap_bank & 0xF) as u32) << 4) | ((dp_bank & 0xF) as u32)
}

/// The APSEL field of a SELECT register value.
pub open spec fn spec_select_ap_sel(v: u32) -> u8 {
    (v >> 24) as u8
}

/// The APBANKSEL field of a SELECT register value.
pub open spec fn spec_select_ap_bank(v: u32) -> u8 {
    ((v >> 4) & 0xF) as u8
}

/// The DPBANKSEL field of a SELECT register value.
pub open spec fn spec_select_dp_bank(v: u32) -> u8 {
    (v & 0xF) as u8
}

/// The three selector fields of a SELECT value round-trip: decoding an
/// encoded value gives back the fields (banks taken modulo their 4 bits).
pub proof fn lemma_select_value_fields(ap_sel: u8, ap_bank: u8, dp_bank: u8)
    ensures
        spec_select_ap_sel(spec_select_value(ap_sel, ap_bank, dp_bank)) == ap_sel,
        spec_select_ap_bank(spec_select_value(ap_sel, ap_bank, dp_bank)) == ap_bank & 0xF,
        spec_select_dp_bank(spec_select_value(ap_sel, ap_bank, dp_bank)) == dp_bank & 0xF,
{
    assert((((ap_sel as u32) << 24) | (((ap_bank & 0xF) as u32) << 4) | ((dp_bank & 0xF) as u32))
        >> 24 == ap_sel as u32) by (bit_vector);
    assert(((((ap_sel as u32) << 24) | (((ap_bank & 0xF) as u32) << 4) | ((dp_bank
        & 0xF) as u32)) >> 4) & 0xF == (ap_bank & 0xF) as u32) by (bit_vector);
    assert((((ap_sel as u32) << 24) | (((ap_bank & 0xF) as u32) << 4) | ((dp_bank & 0xF) as u32))
        & 0xF == (dp_bank & 0xF) as u32) by (bit_vector);
}

/// The sticky-error flag of a control/status register value (bit 5).
pub open spec fn spec_ctrl_sticky_err(v: u32) -> bool {
    v & 0x20 != 0
}

/// Reads the sticky-error flag of a control/status register value.
pub fn ctrl_sticky_err(v: u32) -> (r: bool)
    ensures
        r == spec_ctrl_sticky_err(v),
{
    v & 0x20 != 0
}

/// The overrun-detect enable flag of a control/status register value (bit 0).
pub open spec fn spec_ctrl_orun_detect(v: u32) -> bool {
    v & 0x1 != 0
}

/// Reads the overrun-detect enable flag of a control/status register value.
pub fn ctrl_orun_detect(v: u32) -> (r: bool)
    ensures
        r == spec_ctrl_orun_detect(v),
{
    v & 0x1 != 0
}

/// A control/status register value with its overrun-detect flag forced to
/// `enable` and every other bit unchanged.
pub open spec fn spec_ctrl_set_orun_detect(v: u32, enable: bool) -> u32 {
    if enable {
        v | 0x1
    } else {
        v & 0xFFFF_FFFE
    }
}

/// Forces the overrun-detect flag of a control/status register value.
pub fn ctrl_set_orun_detect(v: u32, enable: bool) -> (r: u32)
    ensures
        r == spec_ctrl_set_orun_detect(v, enable),
        spec_ctrl_orun_detect(r) == enable,
        spec_ctrl_sticky_err(r) == spec_ctrl_sticky_err(v),
{
    proof {
        assert((v | 0x1) & 0x1 != 0 && (v & 0xFFFF_FFFEu32) & 0x1 == 0 && ((v | 0x1) & 0x20 == v
            & 0x20) && ((v & 0xFFFF_FFFEu32) & 0x20 == v & 0x20)) by (bit_vector);
    }
    if enable {
        v | 0x1
    } else {
        v & 0xFFFF_FFFE
    }
}

/// An ABORT register value with only the sticky-error-clear flag set (bit 2).
pub open spec fn spec_abort_clear_sticky_err() -> u32 {
    0x4
}

/// Whether an ABORT register value has the sticky-error-clear flag set.
pub open spec fn spec_abort_has_stkerrclr(v: u32) -> bool {
    v & 0x4 != 0
}

/// Builds an ABORT register value that clears the sticky-error flag and
/// requests nothing else.
pub fn abort_clear_sticky_err() -> (r: u32)
    ensures
        r == spec_abort_clear_sticky_err(),
        spec_abort_has_stkerrclr(r),
{
    proof {
        assert(0x4u32 & 0x4 != 0) by (bit_vector);
    }
    0x4
}

/// The class field of an AP identification register value (bits 16:13).
pub open spec fn spec_idr_class(v: u32) -> u32 {
    (v >> 13) & 0xF
}

/// The IDR class value identifying a Memory AP.
pub const AP_CLASS_MEM_AP: u32 = 0x8;

/// Whether an AP identification register value identifies a Memory AP.
pub open spec fn spec_idr_is_mem_ap(v: u32) -> bool {
    spec_idr_class(v) == AP_CLASS_MEM_AP
}

/// Reads the class field of an AP identification register value.
pub fn idr_class(v: u32) -> (r: u32)
    ensures
        r == spec_idr_class(v),
{
    (v >> 13) & 0xF
}

/// Decides whether an AP identification register value identifies a Memory
/// AP.
pub fn idr_is_mem_ap(v: u32) -> (r: bool)
    ensures
        r == spec_idr_is_mem_ap(v),
{
    idr_class(v) == AP_CLASS_MEM_AP
}

/// Whether a BASE register value uses the ADIv5 extended (64-bit) base
/// layout (format bit 0 set).
pub open spec fn spec_base_is_adiv5_format(v: u32) -> bool {
    v & 0x1 != 0
}

/// Reads the format flag of a BASE register value.
pub fn base_is_adiv5_format(v: u32) -> (r: bool)
    ensures
        r == spec_base_is_adiv5_format(v),
{
    v & 0x1 != 0
}

/// The base-address bits of a BASE register value: bits 31:12; the low 12
/// bits are flags and reserved bits, not address bits.
pub open spec fn spec_base_baseaddr(v: u32) -> u32 {
    v & 0xFFFF_F000
}

/// The 64-bit debug base address assembled from the low BASE register and,
/// for the extended layout, the high BASE2 register.
pub open spec fn spec_assemble_base_address(base: u32, base2: Option<u32>) -> u64 {
    (match base2 {
        Some(high) => (high as u64) << 32,
        None => 0u64,
    }) | (spec_base_baseaddr(base) as u64)
}

/// Assembles the 64-bit debug base address from the low base register value
/// and, when the extended layout is in use, the high half.
pub fn assemble_base_address(base: u32, base2: Option<u32>) -> (r: u64)
    ensures
        r == spec_assemble_base_address(base, base2),
{
    let low: u64 = (base & 0xFFFF_F000) as u64;
    match base2 {
        Some(high) => ((high as u64) << 32) | low,
        None => {
            proof {
                assert(0u64 | low == low) by (bit_vector);
            }
            low
        },
    }
}

/// The transfer-size field of a CSW register value (bits 2:0).
pub open spec fn spec_csw_size(v: u32) -> u32 {
    v & 0x7
}

/// The CSW transfer-size encoding of 8-bit transfers.
pub const CSW_SIZE_U8: u32 = 0x0;

/// The HNONSEC flag of a CSW register value (bit 30).
pub open spec fn spec_csw_hnonsec(v: u32) -> bool {
    v & 0x4000_0000 != 0
}

/// Reads the transfer-size field of a CSW register value.
pub fn csw_size(v: u32) -> (r: u32)
    ensures
        r == spec_csw_size(v),
{
    v & 0x7
}

/// Reads the HNONSEC flag of a CSW register value.
pub fn csw_hnonsec(v: u32) -> (r: bool)
    ensures
        r == spec_csw_hnonsec(v),
{
    v & 0x4000_0000 != 0
}

/// The CSW value written while probing an AP's capabilities: it requests
/// 8-bit transfer size; whether the request survives the readback decides
/// whether the AP supports widths other than 32 bits.
pub open spec fn spec_csw_probe_value() -> u32 {
    0x0
}

/// Builds the CSW value used to probe an AP's supported transfer sizes.
pub fn csw_probe_value() -> (r: u32)
    ensures
        r == spec_csw_probe_value(),
        spec_csw_size(r) == CSW_SIZE_U8,
{
    proof {
        assert(0x0u32 & 0x7 == 0x0) by (bit_vector);
    }
    0x0
}

/// The version field of a DPIDR register value (bits 15:12).
pub open spec fn spec_dpidr_version(v: u32) -> u8 {
    ((v >> 12) & 0xF) as u8
}

/// Reads the debug-port protocol version from a DPIDR register value.
pub fn dpidr_version(v: u32) -> (r: u8)
    ensures
        r == spec_dpidr_version(v),
{
    proof {
        assert((v >> 12) & 0xF < 256) by (bit_vector);
    }
    ((v >> 12) & 0xF) as u8
}

} // verus!
