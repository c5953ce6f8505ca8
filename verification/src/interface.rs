//! The stateful communication interface: type-state initialization, the
//! DP/AP selection cache, and lazy access-port discovery.
//!
//! An interface starts `Uninitialized`, able only to read DPIDR. Running a
//! bring-up sequence consumes it and yields an `Initialized` interface,
//! which tracks per debug port which register banks and which access port
//! are selected in hardware, and issues a SELECT write only when the cached
//! state disagrees with the access being made.

use vstd::prelude::*;
use crate::probe::{ArmDebugSequence, DapError, DapProbe, Transaction};
use crate::registers::{
    ApAddress, DpAddress, GenericAp, MemoryAp, PortType, addr_of, assemble_base_address,
    bank_of, base_is_adiv5_format, csw_hnonsec, csw_probe_value, csw_size, ctrl_set_orun_detect,
    idr_is_mem_ap, select_value, spec_assemble_base_address, spec_bank_of,
    spec_base_is_adiv5_format, spec_csw_hnonsec, spec_csw_probe_value, spec_csw_size,
    spec_ctrl_set_orun_detect, spec_idr_is_mem_ap, spec_is_banked_dp_addr, spec_select_value,
    AP_BASE, AP_BASE2, AP_CSW, AP_IDR, CSW_SIZE_U8, DP_ABORT, DP_CTRL_STAT, DP_SELECT,
};

verus! {

/// A prefix's entries are the longer sequence's entries.
pub proof fn lemma_prefix_index<T>(a: Seq<T>, b: Seq<T>, i: int)
    requires
        a.is_prefix_of(b),
        0 <= i < a.len(),
    ensures
        b[i] == a[i],
{
    assert(a =~= b.subrange(0, a.len() as int));
}

/// Pushing extends a sequence to one it is a prefix of.
pub proof fn lemma_prefix_push<T>(a: Seq<T>, x: T)
    ensures
        a.is_prefix_of(a.push(x)),
{
    assert(a =~= a.push(x).subrange(0, a.len() as int));
}

/// Being a prefix is transitive.
pub proof fn lemma_prefix_trans<T>(a: Seq<T>, b: Seq<T>, c: Seq<T>)
    requires
        a.is_prefix_of(b),
        b.is_prefix_of(c),
    ensures
        a.is_prefix_of(c),
{
    assert(a =~= b.subrange(0, a.len() as int));
    assert(b =~= c.subrange(0, b.len() as int));
    assert(a =~= c.subrange(0, a.len() as int));
}

/// An error of the protocol layer: a transport failure, or a request this
/// layer itself rejects.
#[derive(Clone, Copy, Debug, PartialEq, Eq, Structural)]
pub enum ArmError {
    /// A transport-protocol failure, propagated unchanged.
    Dap(DapError),
    /// The addressed access port was never discovered on its debug port.
    ApDoesNotExist(ApAddress),
    /// The access port exists but was not classified as a Memory AP.
    NotMemoryAp(ApAddress),
}

/// The protocol version a debug port reports.
#[derive(Clone, Copy, Debug, PartialEq, Eq, Structural)]
pub enum DebugPortVersion {
    DpV1,
    DpV2,
    DpV3,
    /// A version this layer does not know, by its raw field value.
    Unsupported(u8),
}

impl DebugPortVersion {
    /// Maps the raw DPIDR version field to a protocol version.
    pub fn from_raw(raw: u8) -> (r: Self)
        ensures
            r == Self::spec_from_raw(raw),
    {
        match raw {
            1u8 => DebugPortVersion::DpV1,
            2u8 => DebugPortVersion::DpV2,
            3u8 => DebugPortVersion::DpV3,
            _ => DebugPortVersion::Unsupported(raw),
        }
    }

    /// The protocol version encoded by a raw DPIDR version field.
    pub open spec fn spec_from_raw(raw: u8) -> Self {
        if raw == 1 {
            DebugPortVersion::DpV1
        } else if raw == 2 {
            DebugPortVersion::DpV2
        } else if raw == 3 {
            DebugPortVersion::DpV3
        } else {
            DebugPortVersion::Unsupported(raw)
        }
    }
}

/// What discovery learned about one access port.
#[derive(Clone, Copy, Debug, PartialEq, Eq, Structural)]
pub enum ApInformation {
    /// A Memory AP, which allows access to target memory.
    MemoryAp(MemoryApInformation),
    /// An AP of a class this layer does not specialize.
    Other {
        /// Address of the access port.
        address: ApAddress,
    },
}

impl ApInformation {
    /// The address of the described access port.
    pub open spec fn spec_address(&self) -> ApAddress {
        match self {
            ApInformation::MemoryAp(info) => info.address,
            ApInformation::Other { address } => *address,
        }
    }

    /// Returns the address of the described access port.
    pub fn address(&self) -> (r: ApAddress)
        ensures
            r == self.spec_address(),
    {
        match self {
            ApInformation::MemoryAp(info) => info.address,
            ApInformation::Other { address } => *address,
        }
    }
}

/// The last four transactions of `lg` are the CSW probe-and-restore dance
/// of AP classification: the original CSW is read, a probe value written,
/// the surviving value read back, and the original value restored verbatim.
pub open spec fn csw_probe_and_restore(lg: Seq<Transaction>, old_csw: u32, new_csw: u32) -> bool {
    let n = lg.len() as int;
    &&& n >= 4
    &&& lg[n - 4] == Transaction::Read(PortType::AccessPort, AP_CSW, old_csw)
    &&& lg[n - 3] == Transaction::Write(PortType::AccessPort, AP_CSW, spec_csw_probe_value())
    &&& lg[n - 2] == Transaction::Read(PortType::AccessPort, AP_CSW, new_csw)
    &&& lg[n - 1] == Transaction::Write(PortType::AccessPort, AP_CSW, old_csw)
}

/// Some transaction of `lg` at or after `from` read the BASE register and
/// returned `b`.
pub open spec fn base_read_in(lg: Seq<Transaction>, from: int, b: u32) -> bool {
    exists|i: int|
        from <= i < lg.len() && #[trigger] lg[i] == Transaction::Read(
            PortType::AccessPort,
            AP_BASE,
            b,
        )
}

/// Some transaction of `lg` at or after `from` read the BASE2 register and
/// returned `b2`.
pub open spec fn base2_read_in(lg: Seq<Transaction>, from: int, b2: u32) -> bool {
    exists|i: int|
        from <= i < lg.len() && #[trigger] lg[i] == Transaction::Read(
            PortType::AccessPort,
            AP_BASE2,
            b2,
        )
}

/// Whether a transaction is a read of the DP control/status register.
pub open spec fn is_ctrl_read(t: Transaction) -> bool {
    match t {
        Transaction::Read(p, a, _) => p == PortType::DebugPort && a == DP_CTRL_STAT,
        _ => false,
    }
}

/// Whether a transaction is a write of the DP ABORT register.
pub open spec fn is_abort_write(t: Transaction) -> bool {
    match t {
        Transaction::Write(p, a, _) => p == PortType::DebugPort && a == DP_ABORT,
        _ => false,
    }
}

/// Positions `i` and `i + 1` of `lg` hold a CTRL/STAT read that returned
/// `v` and the write that copies `v` back with only the overrun-detect
/// flag forced to `enable`.
pub open spec fn orun_forced_at(lg: Seq<Transaction>, i: int, v: u32, enable: bool) -> bool {
    &&& 0 <= i
    &&& i + 1 < lg.len()
    &&& lg[i] == Transaction::Read(PortType::DebugPort, DP_CTRL_STAT, v)
    &&& lg[i + 1] == Transaction::Write(
        PortType::DebugPort,
        DP_CTRL_STAT,
        spec_ctrl_set_orun_detect(v, enable),
    )
}

/// The exact transactions one AP classification appends to a log `l0`,
/// given the selection cache `st` of the owning debug port before the
/// call and the values the device returned: at most one SELECT write to
/// reach the IDR bank, the IDR read, and - only when the IDR identifies a
/// Memory AP - the BASE read, the BASE2 read for the extended format
/// alone, one SELECT write to reach the CSW bank, and the CSW
/// probe-and-restore. Nothing else; in particular a non-Memory AP costs
/// exactly the IDR read.
pub open spec fn classification_log(
    st: DpState,
    ap: ApAddress,
    l0: Seq<Transaction>,
    v: u32,
    b: u32,
    b2: Option<u32>,
    oc: u32,
    nc: u32,
) -> Seq<Transaction> {
    let l1 = if st.current_apsel == ap.ap && st.current_apbanksel == spec_bank_of(AP_IDR) {
        l0
    } else {
        l0.push(
            Transaction::Write(
                PortType::DebugPort,
                DP_SELECT,
                spec_select_value(ap.ap, spec_bank_of(AP_IDR), st.current_dpbanksel),
            ),
        )
    };
    let l2 = l1.push(Transaction::Read(PortType::AccessPort, AP_IDR, v));
    if !spec_idr_is_mem_ap(v) {
        l2
    } else {
        let l3 = l2.push(Transaction::Read(PortType::AccessPort, AP_BASE, b));
        let l4 = match b2 {
            Some(x) => l3.push(Transaction::Read(PortType::AccessPort, AP_BASE2, x)),
            None => l3,
        };
        l4.push(
            Transaction::Write(
                PortType::DebugPort,
                DP_SELECT,
                spec_select_value(ap.ap, spec_bank_of(AP_CSW), st.current_dpbanksel),
            ),
        ).push(Transaction::Read(PortType::AccessPort, AP_CSW, oc)).push(
            Transaction::Write(PortType::AccessPort, AP_CSW, spec_csw_probe_value()),
        ).push(Transaction::Read(PortType::AccessPort, AP_CSW, nc)).push(
            Transaction::Write(PortType::AccessPort, AP_CSW, oc),
        )
    }
}

/// Some transaction of `lg` at or after `from` read the IDR register and
/// returned `v`.
pub open spec fn idr_read_in(lg: Seq<Transaction>, from: int, v: u32) -> bool {
    exists|i: int|
        from <= i < lg.len() && #[trigger] lg[i] == Transaction::Read(
            PortType::AccessPort,
            AP_IDR,
            v,
        )
}

/// Extending the log, or widening the window, keeps an IDR read in it.
pub proof fn lemma_idr_read_in_prefix(a: Seq<Transaction>, b: Seq<Transaction>, from_a: int, from_b: int, v: u32)
    requires
        idr_read_in(a, from_a, v),
        a.is_prefix_of(b),
        0 <= from_b <= from_a,
    ensures
        idr_read_in(b, from_b, v),
{
    let i = choose|i: int|
        from_a <= i < a.len() && #[trigger] a[i] == Transaction::Read(
            PortType::AccessPort,
            AP_IDR,
            v,
        );
    assert(from_a <= i < a.len() && a[i] == Transaction::Read(PortType::AccessPort, AP_IDR, v));
    lemma_prefix_index(a, b, i);
    assert(from_b <= i < b.len() && b[i] == Transaction::Read(PortType::AccessPort, AP_IDR, v));
}

/// A classification's log segment contains the IDR read it decided on.
pub proof fn lemma_classification_has_idr_read(
    st: DpState,
    ap: ApAddress,
    l0: Seq<Transaction>,
    v: u32,
    b: u32,
    b2: Option<u32>,
    oc: u32,
    nc: u32,
    from: int,
)
    requires
        0 <= from <= l0.len(),
    ensures
        idr_read_in(classification_log(st, ap, l0, v, b, b2, oc, nc), from, v),
{
    let l1 = if st.current_apsel == ap.ap && st.current_apbanksel == spec_bank_of(AP_IDR) {
        l0
    } else {
        l0.push(
            Transaction::Write(
                PortType::DebugPort,
                DP_SELECT,
                spec_select_value(ap.ap, spec_bank_of(AP_IDR), st.current_dpbanksel),
            ),
        )
    };
    let l2 = l1.push(Transaction::Read(PortType::AccessPort, AP_IDR, v));
    let lg = classification_log(st, ap, l0, v, b, b2, oc, nc);
    let p = l1.len() as int;
    assert(l2[p] == Transaction::Read(PortType::AccessPort, AP_IDR, v));
    assert(lg[p] == Transaction::Read(PortType::AccessPort, AP_IDR, v));
    assert(from <= p < lg.len());
}

/// The log window starting at `from` holds an IDR read whose value's
/// class field agrees with the variant of `info`: the evidence a
/// discovery scan owes for each AP it lists.
pub open spec fn classified_evidence(lg: Seq<Transaction>, from: int, info: ApInformation) -> bool {
    exists|v: u32|
        #[trigger] idr_read_in(lg, from, v) && (info is MemoryAp <==> spec_idr_is_mem_ap(v))
}

/// Extending the log, or widening the window, keeps the evidence.
pub proof fn lemma_evidence_prefix(
    a: Seq<Transaction>,
    b: Seq<Transaction>,
    from_a: int,
    from_b: int,
    info: ApInformation,
)
    requires
        classified_evidence(a, from_a, info),
        a.is_prefix_of(b),
        0 <= from_b <= from_a,
    ensures
        classified_evidence(b, from_b, info),
{
    let v = choose|v: u32|
        #[trigger] idr_read_in(a, from_a, v) && (info is MemoryAp <==> spec_idr_is_mem_ap(v));
    assert(idr_read_in(a, from_a, v) && (info is MemoryAp <==> spec_idr_is_mem_ap(v)));
    lemma_idr_read_in_prefix(a, b, from_a, from_b, v);
}

/// What classification derived about a Memory AP.
#[derive(Clone, Copy, Debug, PartialEq, Eq, Structural)]
pub struct MemoryApInformation {
    /// Address of the access port.
    pub address: ApAddress,
    /// Whether only 32-bit wide access to data is supported (derived from
    /// the CSW probe readback, not assumed).
    pub only_32bit_data_size: bool,
    /// The debug base address: a pointer into the device's debug address
    /// space, assembled from the BASE register and, for the ADIv5 extended
    /// format, the high half from BASE2.
    pub debug_base_address: u64,
    /// Whether the HNONSEC bit of the CSW register is supported.
    pub supports_hnonsec: bool,
}

/// The per-debug-port selection cache and discovery results.
#[derive(Debug)]
pub struct DpState {
    /// The protocol version the debug port reported.
    pub debug_port_version: DebugPortVersion,
    /// The DP register bank currently selected in hardware.
    pub current_dpbanksel: u8,
    /// The AP index currently selected in hardware.
    pub current_apsel: u8,
    /// The AP register bank currently selected in hardware.
    pub current_apbanksel: u8,
    /// Information about the access ports of this debug port, indexed by
    /// AP number; populated once, on the first selection of the port.
    pub ap_information: Vec<ApInformation>,
}

impl DpState {
    /// A fresh cache: nothing discovered, the hardware reset selection.
    pub fn new() -> (r: Self)
        ensures
            r.debug_port_version == DebugPortVersion::Unsupported(0xFFu8),
            r.current_dpbanksel == 0,
            r.current_apsel == 0,
            r.current_apbanksel == 0,
            r.ap_information@ =~= Seq::<ApInformation>::empty(),
    {
        DpState {
            debug_port_version: DebugPortVersion::Unsupported(0xFF),
            current_dpbanksel: 0,
            current_apsel: 0,
            current_apbanksel: 0,
            ap_information: Vec::new(),
        }
    }

    /// Well-formedness of a cache entry for the debug port owning it: the
    /// AP list is indexed by AP number and the bank fields fit in 4 bits.
    pub open spec fn wf_for(&self, dp: DpAddress) -> bool {
        &&& self.ap_information@.len() <= 256
        &&& forall|k: int|
            0 <= k < self.ap_information@.len() ==> (#[trigger] self.ap_information@[k]).spec_address()
                == (ApAddress { dp, ap: k as u8 })
        &&& self.current_dpbanksel < 16
        &&& self.current_apbanksel < 16
    }
}

/// Marker for the two lifecycle states of the interface.
pub trait ArmDebugState {

}

/// Raw line-level operations passed through to the probe unmodified;
/// available in either lifecycle state.
pub trait SwdSequence {
    /// Sends a raw bit sequence over the wire.
    fn swj_sequence(&mut self, bit_len: u8, bits: u64) -> (r: Result<(), ArmError>);

    /// Drives the probe pins directly; returns the pin state read back.
    fn swj_pins(&mut self, pin_out: u32, pin_select: u32, pin_wait: u32) -> (r: Result<
        u32,
        ArmError,
    >);
}

/// The state of an interface whose debug port handshake has not run: only
/// a raw DPIDR read is available.
pub struct Uninitialized {
    /// Whether overrun detection should be enabled during bring-up.
    pub use_overrun_detect: bool,
}

impl ArmDebugState for Uninitialized {

}

/// The state of an interface after bring-up: the selection cache and the
/// bring-up sequence shared by every debug port.
pub struct Initialized<SQ> {
    current_dp: Option<DpAddress>,
    dps: Vec<(DpAddress, DpState)>,
    use_overrun_detect: bool,
    sequence: SQ,
}

impl<SQ> ArmDebugState for Initialized<SQ> {

}

impl<SQ> Initialized<SQ> {
    /// An initialized state with no debug port selected or discovered.
    pub fn new(sequence: SQ, use_overrun_detect: bool) -> (r: Self)
        ensures
            r.spec_current_dp() is None,
            r.spec_dps() =~= Seq::<(DpAddress, DpState)>::empty(),
            r.spec_use_overrun_detect() == use_overrun_detect,
            r.spec_sequence() == sequence,
    {
        Initialized { current_dp: None, dps: Vec::new(), use_overrun_detect, sequence }
    }

    /// The debug port the cache believes is selected in hardware.
    pub closed spec fn spec_current_dp(&self) -> Option<DpAddress> {
        self.current_dp
    }

    /// The per-debug-port entries, in insertion order.
    pub closed spec fn spec_dps(&self) -> Seq<(DpAddress, DpState)> {
        self.dps@
    }

    /// The configured overrun-detect preference.
    pub closed spec fn spec_use_overrun_detect(&self) -> bool {
        self.use_overrun_detect
    }

    /// The bring-up sequence every debug port of this interface shares.
    pub closed spec fn spec_sequence(&self) -> SQ {
        self.sequence
    }
}

/// The communication interface: it exclusively owns the transport handle
/// and, once initialized, all per-debug-port state.
pub struct ArmCommunicationInterface<P, S> {
    probe: P,
    state: S,
}

impl<P: DapProbe, S: ArmDebugState> ArmCommunicationInterface<P, S> {
    /// The transaction log of the owned transport.
    pub closed spec fn plog(&self) -> Seq<Transaction> {
        self.probe.log()
    }

    /// Reads DPIDR raw and maps its version field; available in either
    /// lifecycle state.
    pub fn _get_debug_port_version(&mut self) -> (r: Result<DebugPortVersion, ArmError>)
        ensures
            old(self).plog().is_prefix_of(final(self).plog()),
            final(self).plog().len() == old(self).plog().len() + 1,
            r matches Ok(version) ==> exists|v: u32|
                final(self).plog().last() == Transaction::Read(
                    PortType::DebugPort,
                    crate::registers::DP_DPIDR,
                    v,
                ) && version == DebugPortVersion::spec_from_raw(
                    crate::registers::spec_dpidr_version(v),
                ),
    {
        match self.probe.raw_read_register(PortType::DebugPort, crate::registers::DP_DPIDR) {
            Ok(v) => Ok(DebugPortVersion::from_raw(crate::registers::dpidr_version(v))),
            Err(e) => Err(ArmError::Dap(e)),
        }
    }
}

impl<P: DapProbe> ArmCommunicationInterface<P, Uninitialized> {
    /// Wraps a transport handle; no register access beyond a DPIDR read is
    /// possible until the interface is initialized.
    pub fn new(probe: P, use_overrun_detect: bool) -> (r: Self)
        ensures
            r.plog() == probe.log(),
            r.spec_use_overrun_detect() == use_overrun_detect,
    {
        ArmCommunicationInterface { probe, state: Uninitialized { use_overrun_detect } }
    }

    /// The configured overrun-detect preference.
    pub closed spec fn spec_use_overrun_detect(&self) -> bool {
        self.state.use_overrun_detect
    }

    /// Reads the DPIDR register raw: the one operation available before
    /// initialization, used to probe for a device.
    pub fn read_dpidr(&mut self) -> (r: Result<u32, ArmError>)
        ensures
            old(self).plog().is_prefix_of(final(self).plog()),
            final(self).plog().len() == old(self).plog().len() + 1,
            r matches Ok(v) ==> final(self).plog() == old(self).plog().push(
                Transaction::Read(PortType::DebugPort, crate::registers::DP_DPIDR, v),
            ),
    {
        match self.probe.raw_read_register(PortType::DebugPort, crate::registers::DP_DPIDR) {
            Ok(v) => Ok(v),
            Err(e) => Err(ArmError::Dap(e)),
        }
    }

    /// Runs the bring-up sequence against the raw transport and, on
    /// success, converts this value into an initialized interface with
    /// empty per-debug-port state. A failed bring-up surfaces the error
    /// and leaves no usable interface.
    pub fn initialize<SQ: ArmDebugSequence>(self, sequence: SQ) -> (r: Result<
        ArmCommunicationInterface<P, Initialized<SQ>>,
        ArmError,
    >)
        ensures
            r matches Ok(iface) ==> {
                &&& iface.wf()
                &&& iface.current_dp() is None
                &&& iface.dps() =~= Seq::<(DpAddress, DpState)>::empty()
                &&& iface.overrun_detect() == self.spec_use_overrun_detect()
                &&& self.plog().is_prefix_of(iface.plog())
                &&& iface.sequence() == sequence
            },
    {
        let mut this = self;
        match sequence.debug_port_setup(&mut this.probe) {
            Ok(_) => (),
            Err(e) => {
                return Err(ArmError::Dap(e));
            },
        }
        match this.into_initialized(sequence) {
            Ok(iface) => Ok(iface),
            Err((_, e)) => Err(e),
        }
    }

    /// Initializes with the default bring-up sequence, for callers that
    /// have no chip-specific one.
    pub fn initialize_unspecified(self) -> (r: Result<
        ArmCommunicationInterface<P, Initialized<crate::probe::DefaultArmSequence>>,
        ArmError,
    >)
        ensures
            r matches Ok(iface) ==> {
                &&& iface.wf()
                &&& iface.current_dp() is None
                &&& iface.dps() =~= Seq::<(DpAddress, DpState)>::empty()
                &&& iface.overrun_detect() == self.spec_use_overrun_detect()
                &&& self.plog().is_prefix_of(iface.plog())
            },
    {
        self.initialize(crate::probe::DefaultArmSequence::new())
    }

    /// Converts this value into an initialized interface carrying the
    /// given bring-up sequence; the overrun-detect preference carries
    /// over.
    pub fn into_initialized<SQ: ArmDebugSequence>(self, sequence: SQ) -> (r: Result<
        ArmCommunicationInterface<P, Initialized<SQ>>,
        (Self, ArmError),
    >)
        ensures
            r matches Ok(iface) ==> {
                &&& iface.wf()
                &&& iface.current_dp() is None
                &&& iface.dps() =~= Seq::<(DpAddress, DpState)>::empty()
                &&& iface.overrun_detect() == self.spec_use_overrun_detect()
                &&& iface.plog() == self.plog()
                &&& iface.sequence() == sequence
            },
            r is Ok,
    {
        let use_overrun_detect = self.state.use_overrun_detect;
        ArmCommunicationInterface::<P, Initialized<SQ>>::from_uninitialized(
            self,
            sequence,
            use_overrun_detect,
        )
    }
}

impl<P: DapProbe, SQ: ArmDebugSequence> ArmCommunicationInterface<P, Initialized<SQ>> {
    /// The debug port the cache believes is selected in hardware.
    pub closed spec fn current_dp(&self) -> Option<DpAddress> {
        self.state.current_dp
    }

    /// The per-debug-port entries, in insertion order.
    pub closed spec fn dps(&self) -> Seq<(DpAddress, DpState)> {
        self.state.dps@
    }

    /// The configured overrun-detect preference.
    pub closed spec fn overrun_detect(&self) -> bool {
        self.state.use_overrun_detect
    }

    /// The bring-up sequence this interface was built with.
    pub closed spec fn sequence(&self) -> SQ {
        self.state.sequence
    }

    /// Whether a debug port has been seen (and therefore scanned).
    pub open spec fn has_dp(&self, dp: DpAddress) -> bool {
        exists|i: int| 0 <= i < self.dps().len() && (#[trigger] self.dps()[i]).0 == dp
    }

    /// The index of a seen debug port's entry.
    pub open spec fn dp_index(&self, dp: DpAddress) -> int {
        choose|i: int| 0 <= i < self.dps().len() && (#[trigger] self.dps()[i]).0 == dp
    }

    /// The cache entry of a seen debug port.
    pub open spec fn dp_state(&self, dp: DpAddress) -> DpState {
        self.dps()[self.dp_index(dp)].1
    }

    /// Well-formedness: entries have unique keys, each is well-formed for
    /// its debug port, and a selected debug port has an entry.
    pub open spec fn wf(&self) -> bool {
        &&& forall|i: int, j: int|
            0 <= i < j < self.dps().len() ==> (#[trigger] self.dps()[i]).0 != (
            #[trigger] self.dps()[j]).0
        &&& forall|i: int|
            0 <= i < self.dps().len() ==> (#[trigger] self.dps()[i]).1.wf_for(self.dps()[i].0)
        &&& match self.current_dp() {
            Some(d) => self.has_dp(d),
            None => true,
        }
    }

    /// Under key uniqueness, any index holding `dp` is the index `dp_index`
    /// picks.
    pub proof fn lemma_dp_index_is(&self, dp: DpAddress, i: int)
        requires
            self.wf(),
            0 <= i < self.dps().len(),
            self.dps()[i].0 == dp,
        ensures
            self.dp_index(dp) == i,
            self.has_dp(dp),
    {
        assert(self.has_dp(dp));
        let j = self.dp_index(dp);
        assert(0 <= j < self.dps().len() && self.dps()[j].0 == dp);
        if i < j {
            assert(self.dps()[i].0 != self.dps()[j].0);
        } else if j < i {
            assert(self.dps()[j].0 != self.dps()[i].0);
        }
    }

    /// Builds an initialized interface around the transport of an
    /// uninitialized one.
    pub fn from_uninitialized(
        interface: ArmCommunicationInterface<P, Uninitialized>,
        sequence: SQ,
        use_overrun_detect: bool,
    ) -> (r: Result<Self, (ArmCommunicationInterface<P, Uninitialized>, ArmError)>)
        ensures
            r matches Ok(iface) ==> {
                &&& iface.wf()
                &&& iface.current_dp() is None
                &&& iface.dps() =~= Seq::<(DpAddress, DpState)>::empty()
                &&& iface.overrun_detect() == use_overrun_detect
                &&& iface.plog() == interface.plog()
                &&& iface.sequence() == sequence
            },
            r is Ok,
    {
        let initialized_interface = ArmCommunicationInterface {
            probe: interface.probe,
            state: Initialized::new(sequence, use_overrun_detect),
        };
        Ok(initialized_interface)
    }

    /// Finds the entry index of a debug port, if it was seen.
    fn find_dp_index(&self, dp: DpAddress) -> (r: Option<usize>)
        ensures
            r matches Some(i) ==> i < self.dps().len() && self.dps()[i as int].0 == dp,
            r is None ==> !self.has_dp(dp),
            r is Some <==> self.has_dp(dp),
    {
        let n: usize = self.state.dps.len();
        let mut i: usize = 0;
        while i < n
            invariant
                n == self.dps().len(),
                i <= n,
                forall|k: int| 0 <= k < i ==> (#[trigger] self.dps()[k]).0 != dp,
            decreases n - i,
        {
            if self.state.dps[i].0 == dp {
                return Some(i);
            }
            i = i + 1;
        }
        None
    }

    /// Releases the transport handle back to the caller, ending the
    /// interface's lifetime; all cached state is discarded.
    pub fn close(self) -> (r: P)
        ensures
            r.log() == self.plog(),
    {
        self.probe
    }

    /// Every debug port entry of `prior` is still there, in order, with the
    /// same discovery results and protocol version; only the cached bank
    /// selectors may have moved.
    pub open spec fn preserves_discovery_from(&self, prior: &Self) -> bool {
        &&& self.dps().len() == prior.dps().len()
        &&& forall|j: int|
            0 <= j < self.dps().len() ==> (#[trigger] self.dps()[j]).0 == prior.dps()[j].0 && self.dps()[j].1.ap_information@
                =~= prior.dps()[j].1.ap_information@ && self.dps()[j].1.debug_port_version
                == prior.dps()[j].1.debug_port_version
    }

    /// If every entry of `prior` is still present at its index with the
    /// same key and AP list, every debug port seen in `prior` is seen here
    /// with the same discovery results.
    pub proof fn lemma_preserves_all(&self, prior: &Self)
        requires
            self.wf(),
            prior.wf(),
            prior.dps().len() <= self.dps().len(),
            forall|j: int|
                0 <= j < prior.dps().len() ==> (#[trigger] self.dps()[j]).0 == prior.dps()[j].0
                    && self.dps()[j].1.ap_information@ =~= prior.dps()[j].1.ap_information@,
        ensures
            forall|d: DpAddress|
                #[trigger] prior.has_dp(d) ==> self.has_dp(d) && self.dp_state(d).ap_information@
                    =~= prior.dp_state(d).ap_information@,
    {
        assert forall|d: DpAddress| #[trigger] prior.has_dp(d) implies self.has_dp(d)
            && self.dp_state(d).ap_information@ =~= prior.dp_state(d).ap_information@ by {
            let i = prior.dp_index(d);
            assert(0 <= i < prior.dps().len() && prior.dps()[i].0 == d);
            assert(self.dps()[i].0 == d);
            assert(self.has_dp(d));
            self.lemma_dp_index_is(d, i);
            prior.lemma_dp_index_is(d, i);
        }
    }

    /// Selects the DP register bank a banked DP register access needs,
    /// assuming the debug port itself is already selected. A non-banked
    /// address, or a bank already selected, issues nothing; otherwise one
    /// SELECT write goes out, encoding the cached AP index and AP bank
    /// together with the new DP bank.
    fn select_dp_bank_inner(&mut self, dp: DpAddress, dp_register_address: u8) -> (r: Result<
        (),
        ArmError,
    >)
        requires
            old(self).wf(),
            old(self).current_dp() == Some(dp),
        ensures
            final(self).wf(),
            final(self).current_dp() == old(self).current_dp(),
            final(self).overrun_detect() == old(self).overrun_detect(),
            old(self).plog().is_prefix_of(final(self).plog()),
            final(self).preserves_discovery_from(old(self)),
            !spec_is_banked_dp_addr(dp_register_address) ==> r is Ok && *final(self) == *old(self),
            spec_is_banked_dp_addr(dp_register_address) && spec_bank_of(dp_register_address)
                == old(self).dp_state(dp).current_dpbanksel ==> r is Ok && *final(self) == *old(self),
            spec_is_banked_dp_addr(dp_register_address) && spec_bank_of(dp_register_address)
                != old(self).dp_state(dp).current_dpbanksel ==> {
                let st = old(self).dp_state(dp);
                let sel = Transaction::Write(
                    PortType::DebugPort,
                    DP_SELECT,
                    spec_select_value(
                        st.current_apsel,
                        st.current_apbanksel,
                        spec_bank_of(dp_register_address),
                    ),
                );
                &&& (r is Ok ==> final(self).plog() == old(self).plog().push(sel))
                &&& (r is Err ==> final(self).plog() == old(self).plog().push(Transaction::Fault))
                &&& final(self).dp_state(dp).current_dpbanksel == spec_bank_of(
                    dp_register_address,
                )
                &&& final(self).dp_state(dp).current_apsel == st.current_apsel
                &&& final(self).dp_state(dp).current_apbanksel == st.current_apbanksel
            },
            final(self).dp_state(dp).current_apsel == old(self).dp_state(dp).current_apsel,
            final(self).dp_state(dp).current_apbanksel == old(self).dp_state(
                dp,
            ).current_apbanksel,
    {
        let bank = bank_of(dp_register_address);
        let addr = addr_of(dp_register_address);
        if addr != 4 {
            return Ok(());
        }
        let i = match self.find_dp_index(dp) {
            Some(i) => i,
            None => {
                proof {
                    assert(false);
                }
                return Ok(());
            },
        };
        proof {
            self.lemma_dp_index_is(dp, i as int);
        }
        let cur_bank = self.state.dps[i].1.current_dpbanksel;
        if bank != cur_bank {
            let apsel = self.state.dps[i].1.current_apsel;
            let apbank = self.state.dps[i].1.current_apbanksel;
            let entry = &mut self.state.dps[i];
            entry.1.current_dpbanksel = bank;
            proof {
                assert(self.dps() =~= old(self).dps().update(
                    i as int,
                    (dp, self.dps()[i as int].1),
                ));
                self.lemma_dp_index_is(dp, i as int);
            }
            let v = select_value(apsel, apbank, bank);
            match self.probe.raw_write_register(PortType::DebugPort, DP_SELECT, v) {
                Ok(_) => {},
                Err(e) => {
                    proof {
                        assert(old(self).plog().is_prefix_of(self.plog()));
                    }
                    return Err(ArmError::Dap(e));
                },
            }
        }
        Ok(())
    }

    /// Selects the AP index and AP register bank an AP register access
    /// needs, assuming the debug port is already selected. If both match
    /// the cache nothing is issued; otherwise both cached fields move
    /// together and a single SELECT write goes out, encoding the new AP
    /// index and AP bank with the cached DP bank.
    fn select_ap_bank_inner(&mut self, ap: ApAddress, ap_bank: u8) -> (r: Result<(), ArmError>)
        requires
            old(self).wf(),
            old(self).current_dp() == Some(ap.dp),
            ap_bank < 16,
        ensures
            final(self).wf(),
            final(self).current_dp() == old(self).current_dp(),
            final(self).overrun_detect() == old(self).overrun_detect(),
            old(self).plog().is_prefix_of(final(self).plog()),
            final(self).preserves_discovery_from(old(self)),
            ({
                let st = old(self).dp_state(ap.dp);
                st.current_apsel == ap.ap && st.current_apbanksel == ap_bank
            }) ==> r is Ok && *final(self) == *old(self),
            !({
                let st = old(self).dp_state(ap.dp);
                st.current_apsel == ap.ap && st.current_apbanksel == ap_bank
            }) ==> {
                let st = old(self).dp_state(ap.dp);
                let sel = Transaction::Write(
                    PortType::DebugPort,
                    DP_SELECT,
                    spec_select_value(ap.ap, ap_bank, st.current_dpbanksel),
                );
                &&& (r is Ok ==> final(self).plog() == old(self).plog().push(sel))
                &&& (r is Err ==> final(self).plog() == old(self).plog().push(Transaction::Fault))
            },
            final(self).dp_state(ap.dp).current_apsel == ap.ap,
            final(self).dp_state(ap.dp).current_apbanksel == ap_bank,
            final(self).dp_state(ap.dp).current_dpbanksel == old(self).dp_state(
                ap.dp,
            ).current_dpbanksel,
    {
        let dp = ap.dp;
        let i = match self.find_dp_index(dp) {
            Some(i) => i,
            None => {
                proof {
                    assert(false);
                }
                return Ok(());
            },
        };
        proof {
            self.lemma_dp_index_is(dp, i as int);
        }
        let port = ap.ap;
        let cur_apsel = self.state.dps[i].1.current_apsel;
        let cur_apbank = self.state.dps[i].1.current_apbanksel;
        if cur_apsel == port && cur_apbank == ap_bank {
            return Ok(());
        }
        let dpbank = self.state.dps[i].1.current_dpbanksel;
        let entry = &mut self.state.dps[i];
        entry.1.current_apsel = port;
        entry.1.current_apbanksel = ap_bank;
        proof {
            assert(self.dps() =~= old(self).dps().update(i as int, (dp, self.dps()[i as int].1)));
            self.lemma_dp_index_is(dp, i as int);
        }
        let v = select_value(port, ap_bank, dpbank);
        match self.probe.raw_write_register(PortType::DebugPort, DP_SELECT, v) {
            Ok(_) => Ok(()),
            Err(e) => Err(ArmError::Dap(e)),
        }
    }

    /// Reads an AP register, selecting AP and AP bank first when the cache
    /// disagrees; the debug port itself must already be selected.
    fn read_raw_ap_register_inner(&mut self, ap: ApAddress, address: u8) -> (r: Result<
        u32,
        ArmError,
    >)
        requires
            old(self).wf(),
            old(self).current_dp() == Some(ap.dp),
        ensures
            final(self).wf(),
            final(self).current_dp() == old(self).current_dp(),
            final(self).overrun_detect() == old(self).overrun_detect(),
            old(self).plog().is_prefix_of(final(self).plog()),
            final(self).preserves_discovery_from(old(self)),
            r matches Ok(v) ==> final(self).plog().last() == Transaction::Read(
                PortType::AccessPort,
                address,
                v,
            ),
            ({
                let st = old(self).dp_state(ap.dp);
                st.current_apsel == ap.ap && st.current_apbanksel == spec_bank_of(address)
            }) ==> {
                &&& (r matches Ok(v) ==> final(self).plog() == old(self).plog().push(
                    Transaction::Read(PortType::AccessPort, address, v),
                ) && final(self).dps() == old(self).dps())
                &&& (r is Err ==> final(self).plog() == old(self).plog().push(Transaction::Fault))
            },
            !({
                let st = old(self).dp_state(ap.dp);
                st.current_apsel == ap.ap && st.current_apbanksel == spec_bank_of(address)
            }) ==> {
                let st = old(self).dp_state(ap.dp);
                let sel = Transaction::Write(
                    PortType::DebugPort,
                    DP_SELECT,
                    spec_select_value(ap.ap, spec_bank_of(address), st.current_dpbanksel),
                );
                &&& (r matches Ok(v) ==> final(self).plog() == old(self).plog().push(sel).push(
                    Transaction::Read(PortType::AccessPort, address, v),
                ))
                &&& (r is Err ==> final(self).plog() == old(self).plog().push(sel).push(
                    Transaction::Fault,
                ) || final(self).plog() == old(self).plog().push(Transaction::Fault))
            },
            r is Ok ==> final(self).dp_state(ap.dp).current_apsel == ap.ap && final(self).dp_state(
                ap.dp,
            ).current_apbanksel == spec_bank_of(address),
            final(self).dp_state(ap.dp).current_dpbanksel == old(self).dp_state(
                ap.dp,
            ).current_dpbanksel,
    {
        let bank = bank_of(address);
        match self.select_ap_bank_inner(ap, bank) {
            Ok(_) => (),
            Err(e) => {
                return Err(e);
            },
        }
        match self.probe.raw_read_register(PortType::AccessPort, address) {
            Ok(v) => Ok(v),
            Err(e) => Err(ArmError::Dap(e)),
        }
    }

    /// Writes an AP register, selecting AP and AP bank first when the cache
    /// disagrees; the debug port itself must already be selected.
    fn write_raw_ap_register_inner(&mut self, ap: ApAddress, address: u8, value: u32) -> (r:
        Result<(), ArmError>)
        requires
            old(self).wf(),
            old(self).current_dp() == Some(ap.dp),
        ensures
            final(self).wf(),
            final(self).current_dp() == old(self).current_dp(),
            final(self).overrun_detect() == old(self).overrun_detect(),
            old(self).plog().is_prefix_of(final(self).plog()),
            final(self).preserves_discovery_from(old(self)),
            r is Ok ==> final(self).plog().last() == Transaction::Write(
                PortType::AccessPort,
                address,
                value,
            ),
            ({
                let st = old(self).dp_state(ap.dp);
                st.current_apsel == ap.ap && st.current_apbanksel == spec_bank_of(address)
            }) ==> {
                &&& (r is Ok ==> final(self).plog() == old(self).plog().push(
                    Transaction::Write(PortType::AccessPort, address, value),
                ) && final(self).dps() == old(self).dps())
                &&& (r is Err ==> final(self).plog() == old(self).plog().push(Transaction::Fault))
            },
            !({
                let st = old(self).dp_state(ap.dp);
                st.current_apsel == ap.ap && st.current_apbanksel == spec_bank_of(address)
            }) ==> {
                let st = old(self).dp_state(ap.dp);
                let sel = Transaction::Write(
                    PortType::DebugPort,
                    DP_SELECT,
                    spec_select_value(ap.ap, spec_bank_of(address), st.current_dpbanksel),
                );
                &&& (r is Ok ==> final(self).plog() == old(self).plog().push(sel).push(
                    Transaction::Write(PortType::AccessPort, address, value),
                ))
                &&& (r is Err ==> final(self).plog() == old(self).plog().push(sel).push(
                    Transaction::Fault,
                ) || final(self).plog() == old(self).plog().push(Transaction::Fault))
            },
            r is Ok ==> final(self).dp_state(ap.dp).current_apsel == ap.ap && final(self).dp_state(
                ap.dp,
            ).current_apbanksel == spec_bank_of(address),
            final(self).dp_state(ap.dp).current_dpbanksel == old(self).dp_state(
                ap.dp,
            ).current_dpbanksel,
    {
        let bank = bank_of(address);
        match self.select_ap_bank_inner(ap, bank) {
            Ok(_) => (),
            Err(e) => {
                return Err(e);
            },
        }
        match self.probe.raw_write_register(PortType::AccessPort, address, value) {
            Ok(_) => Ok(()),
            Err(e) => Err(ArmError::Dap(e)),
        }
    }

    /// Enumerates the access ports of a freshly seen debug port, reading
    /// candidate AP indices in order until one reports no IDR, classifying
    /// each valid one and appending it to the debug port's AP list in index
    /// order. Runs once per debug port per interface lifetime.
    fn scan_access_ports(&mut self, dp: DpAddress) -> (r: Result<(), ArmError>)
        requires
            old(self).wf(),
            old(self).current_dp() == Some(dp),
            old(self).has_dp(dp),
            old(self).dp_state(dp).ap_information@.len() == 0,
        ensures
            final(self).wf(),
            final(self).current_dp() == Some(dp),
            final(self).has_dp(dp),
            final(self).overrun_detect() == old(self).overrun_detect(),
            old(self).plog().is_prefix_of(final(self).plog()),
            final(self).dps().len() == old(self).dps().len(),
            forall|j: int|
                0 <= j < final(self).dps().len() ==> (#[trigger] final(self).dps()[j]).0 == old(self).dps()[j].0,
            forall|j: int|
                0 <= j < final(self).dps().len() && old(self).dps()[j].0 != dp ==> (
                #[trigger] final(self).dps()[j]).1.ap_information@ =~= old(self).dps()[j].1.ap_information@,
            forall|k: int|
                0 <= k < final(self).dp_state(dp).ap_information@.len() ==> classified_evidence(
                    final(self).plog(),
                    old(self).plog().len() as int,
                    (#[trigger] final(self).dp_state(dp).ap_information@[k]),
                ),
    {
        let mut idx: usize = 0;
        loop
            invariant
                self.wf(),
                self.current_dp() == Some(dp),
                self.has_dp(dp),
                idx <= 256,
                self.dp_state(dp).ap_information@.len() == idx,
                self.overrun_detect() == old(self).overrun_detect(),
                old(self).plog().is_prefix_of(self.plog()),
                self.dps().len() == old(self).dps().len(),
                forall|j: int|
                    0 <= j < self.dps().len() ==> (#[trigger] self.dps()[j]).0 == old(self).dps()[j].0,
                forall|j: int|
                    0 <= j < self.dps().len() && old(self).dps()[j].0 != dp ==> (
                    #[trigger] self.dps()[j]).1.ap_information@ =~= old(self).dps()[j].1.ap_information@,
                forall|k: int|
                    0 <= k < self.dp_state(dp).ap_information@.len() ==> classified_evidence(
                        self.plog(),
                        old(self).plog().len() as int,
                        (#[trigger] self.dp_state(dp).ap_information@[k]),
                    ),
            decreases 256 - idx,
        {
            if idx == 256 {
                break ;
            }
            let ap_addr = ApAddress { dp, ap: idx as u8 };
            let ghost pre = *self;
            let idr = match self.read_raw_ap_register_inner(ap_addr, AP_IDR) {
                Ok(v) => v,
                Err(e) => {
                    proof {
                        lemma_prefix_trans(old(self).plog(), pre.plog(), self.plog());
                        assert forall|k: int|
                            0 <= k < self.dp_state(dp).ap_information@.len() implies classified_evidence(
                            self.plog(),
                            old(self).plog().len() as int,
                            (#[trigger] self.dp_state(dp).ap_information@[k]),
                        ) by {
                            lemma_evidence_prefix(
                                pre.plog(),
                                self.plog(),
                                old(self).plog().len() as int,
                                old(self).plog().len() as int,
                                self.dp_state(dp).ap_information@[k],
                            );
                        }
                    }
                    return Err(e);
                },
            };
            proof {
                lemma_prefix_trans(old(self).plog(), pre.plog(), self.plog());
                assert forall|k: int|
                    0 <= k < self.dp_state(dp).ap_information@.len() implies classified_evidence(
                    self.plog(),
                    old(self).plog().len() as int,
                    (#[trigger] self.dp_state(dp).ap_information@[k]),
                ) by {
                    lemma_evidence_prefix(
                        pre.plog(),
                        self.plog(),
                        old(self).plog().len() as int,
                        old(self).plog().len() as int,
                        self.dp_state(dp).ap_information@[k],
                    );
                }
            }
            if idr == 0 {
                break ;
            }
            let ghost pre2 = *self;
            let info = match ApInformation::read_from_target(
                self,
                GenericAp { address: ap_addr },
            ) {
                Ok(i) => i,
                Err(e) => {
                    proof {
                        lemma_prefix_trans(old(self).plog(), pre2.plog(), self.plog());
                        assert forall|k: int|
                            0 <= k < self.dp_state(dp).ap_information@.len() implies classified_evidence(
                            self.plog(),
                            old(self).plog().len() as int,
                            (#[trigger] self.dp_state(dp).ap_information@[k]),
                        ) by {
                            lemma_evidence_prefix(
                                pre2.plog(),
                                self.plog(),
                                old(self).plog().len() as int,
                                old(self).plog().len() as int,
                                self.dp_state(dp).ap_information@[k],
                            );
                        }
                    }
                    return Err(e);
                },
            };
            proof {
                lemma_prefix_trans(old(self).plog(), pre2.plog(), self.plog());
                assert forall|k: int|
                    0 <= k < self.dp_state(dp).ap_information@.len() implies classified_evidence(
                    self.plog(),
                    old(self).plog().len() as int,
                    (#[trigger] self.dp_state(dp).ap_information@[k]),
                ) by {
                    lemma_evidence_prefix(
                        pre2.plog(),
                        self.plog(),
                        old(self).plog().len() as int,
                        old(self).plog().len() as int,
                        self.dp_state(dp).ap_information@[k],
                    );
                }
                let (v, b, b2, oc, nc) = choose|v: u32, b: u32, b2: Option<u32>, oc: u32, nc: u32|
                    {
                        &&& self.plog() == #[trigger] classification_log(
                            pre2.dp_state(dp),
                            ap_addr,
                            pre2.plog(),
                            v,
                            b,
                            b2,
                            oc,
                            nc,
                        )
                        &&& (info is MemoryAp <==> spec_idr_is_mem_ap(v))
                    };
                assert(self.plog() == classification_log(
                    pre2.dp_state(dp),
                    ap_addr,
                    pre2.plog(),
                    v,
                    b,
                    b2,
                    oc,
                    nc,
                ) && (info is MemoryAp <==> spec_idr_is_mem_ap(v)));
                lemma_classification_has_idr_read(
                    pre2.dp_state(dp),
                    ap_addr,
                    pre2.plog(),
                    v,
                    b,
                    b2,
                    oc,
                    nc,
                    old(self).plog().len() as int,
                );
                assert(classified_evidence(self.plog(), old(self).plog().len() as int, info));
            }
            let i = match self.find_dp_index(dp) {
                Some(i) => i,
                None => {
                    proof {
                        assert(false);
                    }
                    return Ok(());
                },
            };
            proof {
                self.lemma_dp_index_is(dp, i as int);
            }
            let ghost mid = *self;
            let entry = &mut self.state.dps[i];
            entry.1.ap_information.push(info);
            proof {
                assert(self.dps() =~= mid.dps().update(i as int, (dp, self.dps()[i as int].1)));
                self.lemma_dp_index_is(dp, i as int);
                assert(self.dp_state(dp).ap_information@ =~= mid.dp_state(
                    dp,
                ).ap_information@.push(info));
            }
            idx = idx + 1;
        }
        Ok(())
    }

    /// Makes `dp` the selected debug port.
    ///
    /// If `dp` is already selected this is a no-op issuing no transaction.
    /// Otherwise one physical select transaction is attempted; on failure
    /// the cached selection is cleared, so a retry cannot trust a stale
    /// cache, and the error propagates. The first time a debug port is
    /// seen, its bring-up and a full scan of its access ports run, exactly
    /// once per interface lifetime.
    pub fn select_dp(&mut self, dp: DpAddress) -> (r: Result<(), ArmError>)
        requires
            old(self).wf(),
        ensures
            final(self).wf(),
            final(self).overrun_detect() == old(self).overrun_detect(),
            old(self).plog().is_prefix_of(final(self).plog()),
            r is Ok ==> final(self).current_dp() == Some(dp) && final(self).has_dp(dp),
            old(self).current_dp() == Some(dp) ==> r is Ok && *final(self) == *old(self),
            old(self).current_dp() != Some(dp) ==> final(self).plog().len() > old(self).plog().len() && final(self).plog()[old(self).plog().len() as int]
                == Transaction::SelectDp(dp),
            old(self).current_dp() != Some(dp) && old(self).has_dp(dp) ==> {
                &&& final(self).dps() == old(self).dps()
                &&& final(self).plog().len() == old(self).plog().len() + 1
                &&& (r is Err ==> final(self).current_dp() is None)
            },
            old(self).current_dp() != Some(dp) && !old(self).has_dp(dp) && r is Err ==> ((final(self).current_dp() is None) && final(self).dps() == old(self).dps() && final(self).plog()
                == old(self).plog().push(Transaction::SelectDp(dp))) || (final(self).current_dp()
                == Some(dp) && final(self).has_dp(dp) && final(self).dps().len() == old(
                self,
            ).dps().len() + 1),
            forall|d: DpAddress|
                #[trigger] old(self).has_dp(d) ==> final(self).has_dp(d) && final(self).dp_state(
                    d,
                ).ap_information@ =~= old(self).dp_state(d).ap_information@,
            old(self).current_dp() != Some(dp) && !old(self).has_dp(dp) && r is Ok ==> exists|
                i: int,
                v: u32,
            |
                old(self).plog().len() < i && #[trigger] orun_forced_at(
                    final(self).plog(),
                    i,
                    v,
                    old(self).overrun_detect(),
                ),
            old(self).current_dp() != Some(dp) && !old(self).has_dp(dp) && r is Ok ==> forall|
                k: int,
            |
                0 <= k < final(self).dp_state(dp).ap_information@.len() ==> classified_evidence(
                    final(self).plog(),
                    old(self).plog().len() as int,
                    (#[trigger] final(self).dp_state(dp).ap_information@[k]),
                ),
    {
        let hit = match self.state.current_dp {
            Some(cur) => cur == dp,
            None => false,
        };
        if hit {
            return Ok(());
        }
        match self.probe.select_dp(dp) {
            Ok(_) => {},
            Err(e) => {
                self.state.current_dp = None;
                return Err(ArmError::Dap(e));
            },
        }
        self.state.current_dp = Some(dp);
        let known = self.find_dp_index(dp).is_some();
        if !known {
            let ghost before_insert = *self;
            let fresh = DpState::new();
            self.state.dps.push((dp, fresh));
            proof {
                assert(self.dps() =~= before_insert.dps().push((dp, fresh)));
                self.lemma_dp_index_is(dp, self.dps().len() - 1);
            }
            let ghost after_insert = *self;
            let seq_res = self.state.sequence.debug_port_start(&mut self.probe, dp);
            proof {
                lemma_prefix_trans(old(self).plog(), after_insert.plog(), self.plog());
                lemma_prefix_index(
                    after_insert.plog(),
                    self.plog(),
                    old(self).plog().len() as int,
                );
                self.lemma_preserves_all(old(self));
            }
            match seq_res {
                Ok(_) => {},
                Err(e) => {
                    return Err(ArmError::Dap(e));
                },
            }
            // Force the overrun-detect bit of CTRL/STAT to the configured
            // preference; the fresh cache has DP bank 0 selected, which is
            // the bank of CTRL/STAT, so the read needs no SELECT write.
            let ghost before_ctrl = *self;
            let ghost orun_i: int = before_ctrl.plog().len() as int;
            let ctrl_res = self.probe.raw_read_register(PortType::DebugPort, DP_CTRL_STAT);
            proof {
                assert(before_ctrl.plog().is_prefix_of(self.plog())) by {
                    if ctrl_res is Ok {
                        lemma_prefix_push(
                            before_ctrl.plog(),
                            Transaction::Read(PortType::DebugPort, DP_CTRL_STAT, ctrl_res->Ok_0),
                        );
                    } else {
                        lemma_prefix_push(before_ctrl.plog(), Transaction::Fault);
                    }
                }
                lemma_prefix_trans(after_insert.plog(), before_ctrl.plog(), self.plog());
                lemma_prefix_trans(old(self).plog(), after_insert.plog(), self.plog());
                lemma_prefix_index(
                    after_insert.plog(),
                    self.plog(),
                    old(self).plog().len() as int,
                );
                self.lemma_preserves_all(old(self));
            }
            let ctrl = match ctrl_res {
                Ok(v) => v,
                Err(e) => {
                    return Err(ArmError::Dap(e));
                },
            };
            let new_ctrl = ctrl_set_orun_detect(ctrl, self.state.use_overrun_detect);
            let ghost before_w = *self;
            let w_res = self.probe.raw_write_register(PortType::DebugPort, DP_CTRL_STAT, new_ctrl);
            proof {
                assert(before_w.plog().is_prefix_of(self.plog())) by {
                    if w_res is Ok {
                        lemma_prefix_push(
                            before_w.plog(),
                            Transaction::Write(PortType::DebugPort, DP_CTRL_STAT, new_ctrl),
                        );
                    } else {
                        lemma_prefix_push(before_w.plog(), Transaction::Fault);
                    }
                }
                lemma_prefix_trans(after_insert.plog(), before_w.plog(), self.plog());
                lemma_prefix_trans(old(self).plog(), after_insert.plog(), self.plog());
                lemma_prefix_index(
                    after_insert.plog(),
                    self.plog(),
                    old(self).plog().len() as int,
                );
                self.lemma_preserves_all(old(self));
            }
            match w_res {
                Ok(_) => {},
                Err(e) => {
                    return Err(ArmError::Dap(e));
                },
            }
            proof {
                assert(orun_forced_at(
                    self.plog(),
                    orun_i,
                    ctrl,
                    old(self).overrun_detect(),
                ));
            }
            let ghost before_scan = *self;
            let scan_res = self.scan_access_ports(dp);
            proof {
                lemma_prefix_trans(after_insert.plog(), before_scan.plog(), self.plog());
                lemma_prefix_trans(old(self).plog(), after_insert.plog(), self.plog());
                lemma_prefix_index(
                    after_insert.plog(),
                    self.plog(),
                    old(self).plog().len() as int,
                );
                assert forall|j: int| 0 <= j < old(self).dps().len() implies (
                #[trigger] self.dps()[j]).0 == old(self).dps()[j].0
                    && self.dps()[j].1.ap_information@ =~= old(
                    self,
                ).dps()[j].1.ap_information@ by {
                    assert(before_scan.dps()[j] == old(self).dps()[j]);
                    assert(old(self).dps()[j].0 != dp);
                }
                self.lemma_preserves_all(old(self));
            }
            match scan_res {
                Ok(_) => {},
                Err(e) => {
                    return Err(e);
                },
            }
            proof {
                lemma_prefix_index(before_scan.plog(), self.plog(), orun_i);
                lemma_prefix_index(before_scan.plog(), self.plog(), orun_i + 1);
                assert(old(self).plog().len() < orun_i);
                assert(orun_forced_at(self.plog(), orun_i, ctrl, old(self).overrun_detect()));
                assert(self.plog().is_prefix_of(self.plog())) by {
                    assert(self.plog() =~= self.plog().subrange(0, self.plog().len() as int));
                }
                assert forall|k: int|
                    0 <= k < self.dp_state(dp).ap_information@.len() implies classified_evidence(
                    self.plog(),
                    old(self).plog().len() as int,
                    (#[trigger] self.dp_state(dp).ap_information@[k]),
                ) by {
                    lemma_evidence_prefix(
                        self.plog(),
                        self.plog(),
                        before_scan.plog().len() as int,
                        old(self).plog().len() as int,
                        self.dp_state(dp).ap_information@[k],
                    );
                }
            }
        }
        proof {
            if old(self).plog().len() < self.plog().len() {
                lemma_prefix_index(
                    old(self).plog().push(Transaction::SelectDp(dp)),
                    self.plog(),
                    old(self).plog().len() as int,
                );
            }
        }
        Ok(())
    }

    /// Selects `dp` and, for an access to a banked DP register address,
    /// the DP register bank it needs. Only the register at address 0x4 is
    /// banked: any other address issues no SELECT write at all.
    pub fn select_dp_and_dp_bank(&mut self, dp: DpAddress, dp_register_address: u8) -> (r: Result<
        (),
        ArmError,
    >)
        requires
            old(self).wf(),
        ensures
            final(self).wf(),
            final(self).overrun_detect() == old(self).overrun_detect(),
            old(self).plog().is_prefix_of(final(self).plog()),
            r is Ok ==> final(self).current_dp() == Some(dp) && final(self).has_dp(dp),
            forall|d: DpAddress|
                #[trigger] old(self).has_dp(d) ==> final(self).has_dp(d) && final(self).dp_state(
                    d,
                ).ap_information@ =~= old(self).dp_state(d).ap_information@,
            old(self).current_dp() == Some(dp) && !spec_is_banked_dp_addr(dp_register_address)
                ==> r is Ok && *final(self) == *old(self),
            old(self).current_dp() == Some(dp) && spec_is_banked_dp_addr(dp_register_address)
                && spec_bank_of(dp_register_address) == old(self).dp_state(dp).current_dpbanksel
                ==> r is Ok && *final(self) == *old(self),
            old(self).current_dp() == Some(dp) && spec_is_banked_dp_addr(dp_register_address)
                && spec_bank_of(dp_register_address) != old(self).dp_state(dp).current_dpbanksel
                ==> {
                let st = old(self).dp_state(dp);
                let sel = Transaction::Write(
                    PortType::DebugPort,
                    DP_SELECT,
                    spec_select_value(
                        st.current_apsel,
                        st.current_apbanksel,
                        spec_bank_of(dp_register_address),
                    ),
                );
                &&& (r is Ok ==> final(self).plog() == old(self).plog().push(sel))
                &&& (r is Err ==> final(self).plog() == old(self).plog().push(Transaction::Fault))
                &&& final(self).dp_state(dp).current_dpbanksel == spec_bank_of(
                    dp_register_address,
                )
            },
            old(self).current_dp() == Some(dp) ==> final(self).dp_state(dp).current_apsel == old(
                self,
            ).dp_state(dp).current_apsel && final(self).dp_state(dp).current_apbanksel == old(
                self,
            ).dp_state(dp).current_apbanksel,
    {
        match self.select_dp(dp) {
            Ok(_) => (),
            Err(e) => {
                return Err(e);
            },
        }
        let ghost mid = *self;
        let r = self.select_dp_bank_inner(dp, dp_register_address);
        proof {
            lemma_prefix_trans(old(self).plog(), mid.plog(), self.plog());
            self.lemma_preserves_all(&mid);
            assert forall|d: DpAddress| #[trigger] old(self).has_dp(d) implies self.has_dp(d)
                && self.dp_state(d).ap_information@ =~= old(self).dp_state(
                d,
            ).ap_information@ by {
                assert(mid.has_dp(d));
            }
        }
        r
    }

    /// Selects the debug port owning `ap`, then the AP index and AP
    /// register bank the access needs. When AP index or AP bank differ
    /// from the cache, both move together in a single SELECT write that
    /// keeps the cached DP bank: writing them separately would cost one
    /// extra transaction and could transiently select an invalid
    /// combination.
    pub fn select_ap_and_ap_bank(&mut self, ap: ApAddress, ap_register_address: u8) -> (r: Result<
        (),
        ArmError,
    >)
        requires
            old(self).wf(),
        ensures
            final(self).wf(),
            final(self).overrun_detect() == old(self).overrun_detect(),
            old(self).plog().is_prefix_of(final(self).plog()),
            r is Ok ==> final(self).current_dp() == Some(ap.dp) && final(self).has_dp(ap.dp),
            forall|d: DpAddress|
                #[trigger] old(self).has_dp(d) ==> final(self).has_dp(d) && final(self).dp_state(
                    d,
                ).ap_information@ =~= old(self).dp_state(d).ap_information@,
            old(self).current_dp() == Some(ap.dp) && old(self).dp_state(ap.dp).current_apsel
                == ap.ap && old(self).dp_state(ap.dp).current_apbanksel == spec_bank_of(
                ap_register_address,
            ) ==> r is Ok && *final(self) == *old(self),
            old(self).current_dp() == Some(ap.dp) && !(old(self).dp_state(ap.dp).current_apsel
                == ap.ap && old(self).dp_state(ap.dp).current_apbanksel == spec_bank_of(
                ap_register_address,
            )) ==> {
                let st = old(self).dp_state(ap.dp);
                let sel = Transaction::Write(
                    PortType::DebugPort,
                    DP_SELECT,
                    spec_select_value(
                        ap.ap,
                        spec_bank_of(ap_register_address),
                        st.current_dpbanksel,
                    ),
                );
                &&& (r is Ok ==> final(self).plog() == old(self).plog().push(sel))
                &&& (r is Err ==> final(self).plog() == old(self).plog().push(Transaction::Fault))
                &&& final(self).dp_state(ap.dp).current_apsel == ap.ap
                &&& final(self).dp_state(ap.dp).current_apbanksel == spec_bank_of(
                    ap_register_address,
                )
                &&& final(self).dp_state(ap.dp).current_dpbanksel == st.current_dpbanksel
            },
    {
        match self.select_dp(ap.dp) {
            Ok(_) => (),
            Err(e) => {
                return Err(e);
            },
        }
        let ghost mid = *self;
        let bank = bank_of(ap_register_address);
        let r = self.select_ap_bank_inner(ap, bank);
        proof {
            lemma_prefix_trans(old(self).plog(), mid.plog(), self.plog());
            self.lemma_preserves_all(&mid);
            assert forall|d: DpAddress| #[trigger] old(self).has_dp(d) implies self.has_dp(d)
                && self.dp_state(d).ap_information@ =~= old(self).dp_state(
                d,
            ).ap_information@ by {
                assert(mid.has_dp(d));
            }
        }
        r
    }

    /// Reads a DP register by debug port and 8-bit register address,
    /// selecting debug port and DP bank as needed first. With the debug
    /// port current and no bank change needed, exactly one transaction
    /// goes out.
    pub fn read_raw_dp_register(&mut self, dp: DpAddress, address: u8) -> (r: Result<
        u32,
        ArmError,
    >)
        requires
            old(self).wf(),
        ensures
            final(self).wf(),
            final(self).overrun_detect() == old(self).overrun_detect(),
            old(self).plog().is_prefix_of(final(self).plog()),
            forall|d: DpAddress|
                #[trigger] old(self).has_dp(d) ==> final(self).has_dp(d) && final(self).dp_state(
                    d,
                ).ap_information@ =~= old(self).dp_state(d).ap_information@,
            r matches Ok(v) ==> final(self).plog().last() == Transaction::Read(
                PortType::DebugPort,
                address,
                v,
            ),
            old(self).current_dp() == Some(dp) && (!spec_is_banked_dp_addr(address)
                || spec_bank_of(address) == old(self).dp_state(dp).current_dpbanksel) ==> {
                &&& (r matches Ok(v) ==> final(self).plog() == old(self).plog().push(
                    Transaction::Read(PortType::DebugPort, address, v),
                ) && final(self).dps() == old(self).dps() && final(self).current_dp() == old(
                    self,
                ).current_dp())
                &&& (r is Err ==> final(self).plog() == old(self).plog().push(Transaction::Fault))
            },
    {
        match self.select_dp_and_dp_bank(dp, address) {
            Ok(_) => (),
            Err(e) => {
                return Err(e);
            },
        }
        let ghost mid = *self;
        let res = self.probe.raw_read_register(PortType::DebugPort, address);
        proof {
            assert(mid.plog().is_prefix_of(self.plog())) by {
                if res is Ok {
                    lemma_prefix_push(
                        mid.plog(),
                        Transaction::Read(PortType::DebugPort, address, res->Ok_0),
                    );
                } else {
                    lemma_prefix_push(mid.plog(), Transaction::Fault);
                }
            }
            lemma_prefix_trans(old(self).plog(), mid.plog(), self.plog());
            self.lemma_preserves_all(&mid);
            assert forall|d: DpAddress| #[trigger] old(self).has_dp(d) implies self.has_dp(d)
                && self.dp_state(d).ap_information@ =~= old(self).dp_state(
                d,
            ).ap_information@ by {
                assert(mid.has_dp(d));
            }
        }
        match res {
            Ok(v) => Ok(v),
            Err(e) => Err(ArmError::Dap(e)),
        }
    }

    /// Writes a DP register by debug port and 8-bit register address,
    /// selecting debug port and DP bank as needed first.
    pub fn write_raw_dp_register(&mut self, dp: DpAddress, address: u8, value: u32) -> (r: Result<
        (),
        ArmError,
    >)
        requires
            old(self).wf(),
        ensures
            final(self).wf(),
            final(self).overrun_detect() == old(self).overrun_detect(),
            old(self).plog().is_prefix_of(final(self).plog()),
            forall|d: DpAddress|
                #[trigger] old(self).has_dp(d) ==> final(self).has_dp(d) && final(self).dp_state(
                    d,
                ).ap_information@ =~= old(self).dp_state(d).ap_information@,
            r is Ok ==> final(self).plog().last() == Transaction::Write(
                PortType::DebugPort,
                address,
                value,
            ),
            old(self).current_dp() == Some(dp) && (!spec_is_banked_dp_addr(address)
                || spec_bank_of(address) == old(self).dp_state(dp).current_dpbanksel) ==> {
                &&& (r is Ok ==> final(self).plog() == old(self).plog().push(
                    Transaction::Write(PortType::DebugPort, address, value),
                ) && final(self).dps() == old(self).dps() && final(self).current_dp() == old(
                    self,
                ).current_dp())
                &&& (r is Err ==> final(self).plog() == old(self).plog().push(Transaction::Fault))
            },
    {
        match self.select_dp_and_dp_bank(dp, address) {
            Ok(_) => (),
            Err(e) => {
                return Err(e);
            },
        }
        let ghost mid = *self;
        let res = self.probe.raw_write_register(PortType::DebugPort, address, value);
        proof {
            assert(mid.plog().is_prefix_of(self.plog())) by {
                if res is Ok {
                    lemma_prefix_push(
                        mid.plog(),
                        Transaction::Write(PortType::DebugPort, address, value),
                    );
                } else {
                    lemma_prefix_push(mid.plog(), Transaction::Fault);
                }
            }
            lemma_prefix_trans(old(self).plog(), mid.plog(), self.plog());
            self.lemma_preserves_all(&mid);
            assert forall|d: DpAddress| #[trigger] old(self).has_dp(d) implies self.has_dp(d)
                && self.dp_state(d).ap_information@ =~= old(self).dp_state(
                d,
            ).ap_information@ by {
                assert(mid.has_dp(d));
            }
        }
        match res {
            Ok(_) => Ok(()),
            Err(e) => Err(ArmError::Dap(e)),
        }
    }

    /// Reads an AP register by access port and 8-bit register address,
    /// selecting debug port, AP and AP bank as needed first.
    pub fn read_raw_ap_register(&mut self, ap: ApAddress, address: u8) -> (r: Result<
        u32,
        ArmError,
    >)
        requires
            old(self).wf(),
        ensures
            final(self).wf(),
            final(self).overrun_detect() == old(self).overrun_detect(),
            old(self).plog().is_prefix_of(final(self).plog()),
            forall|d: DpAddress|
                #[trigger] old(self).has_dp(d) ==> final(self).has_dp(d) && final(self).dp_state(
                    d,
                ).ap_information@ =~= old(self).dp_state(d).ap_information@,
            r matches Ok(v) ==> final(self).plog().last() == Transaction::Read(
                PortType::AccessPort,
                address,
                v,
            ),
            old(self).current_dp() == Some(ap.dp) ==> forall|i: int|
                old(self).plog().len() <= i < final(self).plog().len() ==> !is_abort_write(
                    #[trigger] final(self).plog()[i],
                ),
    {
        match self.select_dp(ap.dp) {
            Ok(_) => (),
            Err(e) => {
                return Err(e);
            },
        }
        let ghost mid = *self;
        let r = self.read_raw_ap_register_inner(ap, address);
        proof {
            if old(self).current_dp() == Some(ap.dp) {
                assert forall|i: int|
                    old(self).plog().len() <= i < self.plog().len() implies !is_abort_write(
                    #[trigger] self.plog()[i],
                ) by {
                    let st = mid.dp_state(ap.dp);
                    let sel = Transaction::Write(
                        PortType::DebugPort,
                        DP_SELECT,
                        spec_select_value(ap.ap, spec_bank_of(address), st.current_dpbanksel),
                    );
                    assert(!is_abort_write(sel));
                }
            }
        }
        proof {
            lemma_prefix_trans(old(self).plog(), mid.plog(), self.plog());
            self.lemma_preserves_all(&mid);
            assert forall|d: DpAddress| #[trigger] old(self).has_dp(d) implies self.has_dp(d)
                && self.dp_state(d).ap_information@ =~= old(self).dp_state(
                d,
            ).ap_information@ by {
                assert(mid.has_dp(d));
            }
        }
        r
    }

    /// Writes an AP register by access port and 8-bit register address,
    /// selecting debug port, AP and AP bank as needed first.
    pub fn write_raw_ap_register(&mut self, ap: ApAddress, address: u8, value: u32) -> (r: Result<
        (),
        ArmError,
    >)
        requires
            old(self).wf(),
        ensures
            final(self).wf(),
            final(self).overrun_detect() == old(self).overrun_detect(),
            old(self).plog().is_prefix_of(final(self).plog()),
            forall|d: DpAddress|
                #[trigger] old(self).has_dp(d) ==> final(self).has_dp(d) && final(self).dp_state(
                    d,
                ).ap_information@ =~= old(self).dp_state(d).ap_information@,
            r is Ok ==> final(self).plog().last() == Transaction::Write(
                PortType::AccessPort,
                address,
                value,
            ),
    {
        match self.select_dp(ap.dp) {
            Ok(_) => (),
            Err(e) => {
                return Err(e);
            },
        }
        let ghost mid = *self;
        let r = self.write_raw_ap_register_inner(ap, address, value);
        proof {
            lemma_prefix_trans(old(self).plog(), mid.plog(), self.plog());
            self.lemma_preserves_all(&mid);
            assert forall|d: DpAddress| #[trigger] old(self).has_dp(d) implies self.has_dp(d)
                && self.dp_state(d).ap_information@ =~= old(self).dp_state(
                d,
            ).ap_information@ by {
                assert(mid.has_dp(d));
            }
        }
        r
    }

    /// Reads one AP register repeatedly into `values`, selecting debug
    /// port, AP and AP bank as needed first.
    pub fn read_raw_ap_register_repeated(
        &mut self,
        ap: ApAddress,
        address: u8,
        values: &mut Vec<u32>,
    ) -> (r: Result<(), ArmError>)
        requires
            old(self).wf(),
        ensures
            final(self).wf(),
            final(values)@.len() == old(values)@.len(),
            old(self).plog().is_prefix_of(final(self).plog()),
            forall|d: DpAddress|
                #[trigger] old(self).has_dp(d) ==> final(self).has_dp(d) && final(self).dp_state(
                    d,
                ).ap_information@ =~= old(self).dp_state(d).ap_information@,
            r is Ok ==> final(self).plog().last() == Transaction::ReadBlock(
                PortType::AccessPort,
                address,
                old(values)@.len() as usize,
            ),
    {
        match self.select_ap_and_ap_bank(ap, address) {
            Ok(_) => (),
            Err(e) => {
                return Err(e);
            },
        }
        let ghost mid = *self;
        let res = self.probe.raw_read_block(PortType::AccessPort, address, values);
        proof {
            assert(mid.plog().is_prefix_of(self.plog())) by {
                if res is Ok {
                    lemma_prefix_push(
                        mid.plog(),
                        Transaction::ReadBlock(PortType::AccessPort, address, old(values)@.len() as usize),
                    );
                } else {
                    lemma_prefix_push(mid.plog(), Transaction::Fault);
                }
            }
            lemma_prefix_trans(old(self).plog(), mid.plog(), self.plog());
            self.lemma_preserves_all(&mid);
            assert forall|d: DpAddress| #[trigger] old(self).has_dp(d) implies self.has_dp(d)
                && self.dp_state(d).ap_information@ =~= old(self).dp_state(
                d,
            ).ap_information@ by {
                assert(mid.has_dp(d));
            }
        }
        match res {
            Ok(_) => Ok(()),
            Err(e) => Err(ArmError::Dap(e)),
        }
    }

    /// Writes one AP register repeatedly from `values`, selecting debug
    /// port, AP and AP bank as needed first.
    pub fn write_raw_ap_register_repeated(
        &mut self,
        ap: ApAddress,
        address: u8,
        values: &Vec<u32>,
    ) -> (r: Result<(), ArmError>)
        requires
            old(self).wf(),
        ensures
            final(self).wf(),
            old(self).plog().is_prefix_of(final(self).plog()),
            forall|d: DpAddress|
                #[trigger] old(self).has_dp(d) ==> final(self).has_dp(d) && final(self).dp_state(
                    d,
                ).ap_information@ =~= old(self).dp_state(d).ap_information@,
            r is Ok ==> final(self).plog().last() == Transaction::WriteBlock(
                PortType::AccessPort,
                address,
                values@.len() as usize,
            ),
    {
        match self.select_ap_and_ap_bank(ap, address) {
            Ok(_) => (),
            Err(e) => {
                return Err(e);
            },
        }
        let ghost mid = *self;
        let res = self.probe.raw_write_block(PortType::AccessPort, address, values);
        proof {
            assert(mid.plog().is_prefix_of(self.plog())) by {
                if res is Ok {
                    lemma_prefix_push(
                        mid.plog(),
                        Transaction::WriteBlock(PortType::AccessPort, address, values@.len() as usize),
                    );
                } else {
                    lemma_prefix_push(mid.plog(), Transaction::Fault);
                }
            }
            lemma_prefix_trans(old(self).plog(), mid.plog(), self.plog());
            self.lemma_preserves_all(&mid);
            assert forall|d: DpAddress| #[trigger] old(self).has_dp(d) implies self.has_dp(d)
                && self.dp_state(d).ap_information@ =~= old(self).dp_state(
                d,
            ).ap_information@ by {
                assert(mid.has_dp(d));
            }
        }
        match res {
            Ok(_) => Ok(()),
            Err(e) => Err(ArmError::Dap(e)),
        }
    }

    /// Determines the type and additional information of an access port
    /// from the discovery results. Selecting a debug port a second time is
    /// a cache hit, so asking twice for the same AP returns identical data
    /// without any further register scan.
    pub fn ap_information(&mut self, access_port: GenericAp) -> (r: Result<
        ApInformation,
        ArmError,
    >)
        requires
            old(self).wf(),
        ensures
            final(self).wf(),
            final(self).overrun_detect() == old(self).overrun_detect(),
            old(self).plog().is_prefix_of(final(self).plog()),
            forall|d: DpAddress|
                #[trigger] old(self).has_dp(d) ==> final(self).has_dp(d) && final(self).dp_state(
                    d,
                ).ap_information@ =~= old(self).dp_state(d).ap_information@,
            r is Ok ==> final(self).current_dp() == Some(access_port.address.dp),
            r matches Ok(info) ==> final(self).has_dp(access_port.address.dp) && (
            access_port.address.ap as int) < final(self).dp_state(
                access_port.address.dp,
            ).ap_information@.len() && info == final(self).dp_state(
                access_port.address.dp,
            ).ap_information@[access_port.address.ap as int],
            old(self).current_dp() == Some(access_port.address.dp) ==> *final(self) == *old(self)
                && {
                let st = old(self).dp_state(access_port.address.dp);
                &&& ((access_port.address.ap as int) < st.ap_information@.len() ==> r == Ok::<
                    ApInformation,
                    ArmError,
                >(st.ap_information@[access_port.address.ap as int]))
                &&& ((access_port.address.ap as int) >= st.ap_information@.len() ==> r == Err::<
                    ApInformation,
                    ArmError,
                >(ArmError::ApDoesNotExist(access_port.address)))
            },
    {
        let addr = access_port.ap_address();
        match self.select_dp(addr.dp) {
            Ok(_) => (),
            Err(e) => {
                return Err(e);
            },
        }
        let i = match self.find_dp_index(addr.dp) {
            Some(i) => i,
            None => {
                proof {
                    assert(false);
                }
                return Err(ArmError::ApDoesNotExist(addr));
            },
        };
        proof {
            self.lemma_dp_index_is(addr.dp, i as int);
        }
        let ap_idx: usize = addr.ap as usize;
        if ap_idx < self.state.dps[i].1.ap_information.len() {
            Ok(self.state.dps[i].1.ap_information[ap_idx])
        } else {
            Err(ArmError::ApDoesNotExist(addr))
        }
    }

    /// The number of access ports discovered on a debug port, selecting
    /// and (on first touch) scanning it first.
    pub fn num_access_ports(&mut self, dp: DpAddress) -> (r: Result<usize, ArmError>)
        requires
            old(self).wf(),
        ensures
            final(self).wf(),
            old(self).plog().is_prefix_of(final(self).plog()),
            r is Ok ==> final(self).current_dp() == Some(dp),
            r matches Ok(n) ==> final(self).has_dp(dp) && n == final(self).dp_state(
                dp,
            ).ap_information@.len(),
            old(self).current_dp() == Some(dp) ==> *final(self) == *old(self) && r == Ok::<
                usize,
                ArmError,
            >(old(self).dp_state(dp).ap_information@.len() as usize),
    {
        match self.select_dp(dp) {
            Ok(_) => (),
            Err(e) => {
                return Err(e);
            },
        }
        let i = match self.find_dp_index(dp) {
            Some(i) => i,
            None => {
                proof {
                    assert(false);
                }
                return Ok(0);
            },
        };
        proof {
            self.lemma_dp_index_is(dp, i as int);
        }
        Ok(self.state.dps[i].1.ap_information.len())
    }

    /// Yields the validated Memory-AP capability through which a
    /// memory-access handle is built. Valid only for access ports that
    /// classification found to be Memory APs; any other AP is a
    /// classification error, not a transport fault.
    pub fn memory_interface(&mut self, access_port: MemoryAp) -> (r: Result<
        MemoryApInformation,
        ArmError,
    >)
        requires
            old(self).wf(),
        ensures
            final(self).wf(),
            old(self).plog().is_prefix_of(final(self).plog()),
            r is Ok ==> final(self).current_dp() == Some(access_port.address.dp),
            r matches Ok(mi) ==> final(self).has_dp(access_port.address.dp) && (
            access_port.address.ap as int) < final(self).dp_state(
                access_port.address.dp,
            ).ap_information@.len() && ApInformation::MemoryAp(mi) == final(self).dp_state(
                access_port.address.dp,
            ).ap_information@[access_port.address.ap as int],
            old(self).current_dp() == Some(access_port.address.dp) ==> *final(self) == *old(self)
                && {
                let st = old(self).dp_state(access_port.address.dp);
                let apidx = access_port.address.ap as int;
                &&& (apidx >= st.ap_information@.len() ==> r == Err::<
                    MemoryApInformation,
                    ArmError,
                >(ArmError::ApDoesNotExist(access_port.address)))
                &&& (apidx < st.ap_information@.len() && st.ap_information@[apidx] is MemoryAp
                    ==> r == Ok::<MemoryApInformation, ArmError>(
                    st.ap_information@[apidx]->MemoryAp_0,
                ))
                &&& (apidx < st.ap_information@.len() && st.ap_information@[apidx] is Other ==> r
                    == Err::<MemoryApInformation, ArmError>(
                    ArmError::NotMemoryAp(st.ap_information@[apidx]->Other_address),
                ))
            },
    {
        let addr = access_port.ap_address();
        let info = match self.ap_information(GenericAp { address: addr }) {
            Ok(info) => info,
            Err(e) => {
                return Err(e);
            },
        };
        match info {
            ApInformation::MemoryAp(mi) => Ok(mi),
            ApInformation::Other { address } => Err(ArmError::NotMemoryAp(address)),
        }
    }

    /// Flushes the transport; no register transaction is issued.
    pub fn flush(&mut self) -> (r: Result<(), ArmError>)
        ensures
            final(self).plog() == old(self).plog(),
            final(self).current_dp() == old(self).current_dp(),
            final(self).dps() == old(self).dps(),
            final(self).overrun_detect() == old(self).overrun_detect(),
    {
        match self.probe.raw_flush() {
            Ok(_) => Ok(()),
            Err(e) => Err(ArmError::Dap(e)),
        }
    }
}

impl<P: DapProbe, S: ArmDebugState> SwdSequence for ArmCommunicationInterface<P, S> {
    fn swj_sequence(&mut self, bit_len: u8, bits: u64) -> (r: Result<(), ArmError>)
        ensures
            r is Ok ==> final(self).plog() == old(self).plog().push(
                Transaction::SwjSequence(bit_len, bits),
            ),
            r is Err ==> final(self).plog() == old(self).plog().push(Transaction::Fault),
    {
        match self.probe.swj_sequence(bit_len, bits) {
            Ok(_) => Ok(()),
            Err(e) => Err(ArmError::Dap(e)),
        }
    }

    fn swj_pins(&mut self, pin_out: u32, pin_select: u32, pin_wait: u32) -> (r: Result<
        u32,
        ArmError,
    >)
        ensures
            r is Ok ==> final(self).plog() == old(self).plog().push(
                Transaction::SwjPins(pin_out, pin_select, pin_wait),
            ),
            r is Err ==> final(self).plog() == old(self).plog().push(Transaction::Fault),
    {
        match self.probe.swj_pins(pin_out, pin_select, pin_wait) {
            Ok(v) => Ok(v),
            Err(e) => Err(ArmError::Dap(e)),
        }
    }
}

impl ApInformation {
    /// Reads information about an AP from its registers.
    ///
    /// This reads the IDR register of the AP and, for a Memory AP, the
    /// base-address registers and the capabilities probed through CSW: the
    /// original CSW value is saved, a probe value requesting 8-bit transfers
    /// is written, the readback (which is authoritative, since transports
    /// may coerce the request) decides the derived capabilities, and the
    /// original value is restored bit-for-bit.
    pub fn read_from_target<P: DapProbe, SQ: ArmDebugSequence>(
        probe: &mut ArmCommunicationInterface<P, Initialized<SQ>>,
        access_port: GenericAp,
    ) -> (r: Result<ApInformation, ArmError>)
        requires
            old(probe).wf(),
            old(probe).current_dp() == Some(access_port.address.dp),
        ensures
            final(probe).wf(),
            final(probe).current_dp() == old(probe).current_dp(),
            final(probe).overrun_detect() == old(probe).overrun_detect(),
            old(probe).plog().is_prefix_of(final(probe).plog()),
            final(probe).preserves_discovery_from(old(probe)),
            final(probe).dp_state(access_port.address.dp).current_dpbanksel == old(probe).dp_state(access_port.address.dp).current_dpbanksel,
            r matches Ok(info) ==> info.spec_address() == access_port.address,
            r matches Ok(ApInformation::MemoryAp(mi)) ==> {
                &&& final(probe).plog().len() >= old(probe).plog().len() + 4
                &&& exists|old_csw: u32, new_csw: u32|
                    {
                        &&& #[trigger] csw_probe_and_restore(final(probe).plog(), old_csw, new_csw)
                        &&& mi.only_32bit_data_size == (spec_csw_size(new_csw) != CSW_SIZE_U8)
                        &&& mi.supports_hnonsec == spec_csw_hnonsec(new_csw)
                    }
                &&& exists|b: u32|
                    {
                        &&& #[trigger] base_read_in(
                            final(probe).plog(),
                            old(probe).plog().len() as int,
                            b,
                        )
                        &&& (!spec_base_is_adiv5_format(b) ==> mi.debug_base_address
                            == spec_assemble_base_address(b, None))
                        &&& (spec_base_is_adiv5_format(b) ==> exists|b2: u32|
                            {
                                &&& #[trigger] base2_read_in(
                                    final(probe).plog(),
                                    old(probe).plog().len() as int,
                                    b2,
                                )
                                &&& mi.debug_base_address == spec_assemble_base_address(
                                    b,
                                    Some(b2),
                                )
                            })
                    }
            },
            r matches Ok(info) ==> exists|v: u32, b: u32, b2: Option<u32>, oc: u32, nc: u32|
                {
                    &&& final(probe).plog() == #[trigger] classification_log(
                        old(probe).dp_state(access_port.address.dp),
                        access_port.address,
                        old(probe).plog(),
                        v,
                        b,
                        b2,
                        oc,
                        nc,
                    )
                    &&& (info is MemoryAp <==> spec_idr_is_mem_ap(v))
                    &&& (info matches ApInformation::MemoryAp(mi) ==> {
                        &&& (b2 is Some <==> spec_base_is_adiv5_format(b))
                        &&& mi.debug_base_address == spec_assemble_base_address(b, b2)
                        &&& mi.only_32bit_data_size == (spec_csw_size(nc) != CSW_SIZE_U8)
                        &&& mi.supports_hnonsec == spec_csw_hnonsec(nc)
                    })
                },
    {
        let addr = access_port.address;
        let ghost l0 = probe.plog();
        let idr = match probe.read_raw_ap_register_inner(addr, AP_IDR) {
            Ok(v) => v,
            Err(e) => {
                return Err(e);
            },
        };
        let ghost l_idr = probe.plog();
        proof {
            assert((0xFCu8 >> 4) == 0xF && (0xF8u8 >> 4) == 0xF && (0xF0u8 >> 4) == 0xF && (
            0x00u8 >> 4) == 0) by (bit_vector);
        }
        if idr_is_mem_ap(idr) {
            let base = match probe.read_raw_ap_register_inner(addr, AP_BASE) {
                Ok(v) => v,
                Err(e) => {
                    return Err(e);
                },
            };
            let ghost l_base = probe.plog();
            let ghost pb: int = l_base.len() - 1;
            let base2: Option<u32> = if base_is_adiv5_format(base) {
                match probe.read_raw_ap_register_inner(addr, AP_BASE2) {
                    Ok(v) => Some(v),
                    Err(e) => {
                        return Err(e);
                    },
                }
            } else {
                None
            };
            let ghost l_base2 = probe.plog();
            let ghost pb2: int = l_base2.len() - 1;
            let base_address = assemble_base_address(base, base2);
            // Save the original CSW value: transports may cache it, so an
            // uncommitted change must not be left behind.
            let old_csw = match probe.read_raw_ap_register_inner(addr, AP_CSW) {
                Ok(v) => v,
                Err(e) => {
                    return Err(e);
                },
            };
            let ghost l1 = probe.plog();
            let probe_csw = csw_probe_value();
            match probe.write_raw_ap_register_inner(addr, AP_CSW, probe_csw) {
                Ok(_) => (),
                Err(e) => {
                    return Err(e);
                },
            }
            let new_csw = match probe.read_raw_ap_register_inner(addr, AP_CSW) {
                Ok(v) => v,
                Err(e) => {
                    return Err(e);
                },
            };
            match probe.write_raw_ap_register_inner(addr, AP_CSW, old_csw) {
                Ok(_) => (),
                Err(e) => {
                    return Err(e);
                },
            }
            let only_32bit_data_size = csw_size(new_csw) != CSW_SIZE_U8;
            let supports_hnonsec = csw_hnonsec(new_csw);
            let mi = MemoryApInformation {
                address: addr,
                only_32bit_data_size,
                debug_base_address: base_address,
                supports_hnonsec,
            };
            proof {
                let lg = probe.plog();
                assert(lg == l1.push(
                    Transaction::Write(PortType::AccessPort, AP_CSW, spec_csw_probe_value()),
                ).push(Transaction::Read(PortType::AccessPort, AP_CSW, new_csw)).push(
                    Transaction::Write(PortType::AccessPort, AP_CSW, old_csw),
                ));
                assert(lg[lg.len() - 4] == l1.last());
                assert(csw_probe_and_restore(lg, old_csw, new_csw));
                // The BASE (and BASE2) reads are still in the final log.
                lemma_prefix_trans(l_base, l_base2, l1);
                lemma_prefix_trans(l_base, l1, lg);
                lemma_prefix_index(l_base, lg, pb);
                assert(lg[pb] == Transaction::Read(PortType::AccessPort, AP_BASE, base));
                assert(l0.len() <= pb < lg.len());
                assert(base_read_in(lg, l0.len() as int, base));
                if base2 is Some {
                    lemma_prefix_trans(l_base2, l1, lg);
                    lemma_prefix_index(l_base2, lg, pb2);
                    assert(lg[pb2] == Transaction::Read(
                        PortType::AccessPort,
                        AP_BASE2,
                        base2->0,
                    ));
                    assert(base2_read_in(lg, l0.len() as int, base2->0));
                }
                // The call's whole log segment is exactly the
                // classification shape for the values read.
                let st0 = old(probe).dp_state(addr.dp);
                if st0.current_apsel == addr.ap && st0.current_apbanksel == spec_bank_of(
                    AP_IDR,
                ) {
                    assert(l_idr == l0.push(Transaction::Read(PortType::AccessPort, AP_IDR, idr)));
                } else {
                    assert(l_idr == l0.push(
                        Transaction::Write(
                            PortType::DebugPort,
                            DP_SELECT,
                            spec_select_value(addr.ap, spec_bank_of(AP_IDR), st0.current_dpbanksel),
                        ),
                    ).push(Transaction::Read(PortType::AccessPort, AP_IDR, idr)));
                }
                assert(l_base == l_idr.push(Transaction::Read(PortType::AccessPort, AP_BASE, base)));
                if base2 is Some {
                    assert(l_base2 == l_base.push(
                        Transaction::Read(PortType::AccessPort, AP_BASE2, base2->0),
                    ));
                } else {
                    assert(l_base2 == l_base);
                }
                assert(l1 == l_base2.push(
                    Transaction::Write(
                        PortType::DebugPort,
                        DP_SELECT,
                        spec_select_value(addr.ap, spec_bank_of(AP_CSW), st0.current_dpbanksel),
                    ),
                ).push(Transaction::Read(PortType::AccessPort, AP_CSW, old_csw)));
                assert(lg =~= classification_log(st0, addr, l0, idr, base, base2, old_csw, new_csw));
            }
            Ok(ApInformation::MemoryAp(mi))
        } else {
            proof {
                let st0 = old(probe).dp_state(addr.dp);
                assert(probe.plog() == l_idr);
                if st0.current_apsel == addr.ap && st0.current_apbanksel == spec_bank_of(
                    AP_IDR,
                ) {
                    assert(l_idr == l0.push(Transaction::Read(PortType::AccessPort, AP_IDR, idr)));
                } else {
                    assert(l_idr == l0.push(
                        Transaction::Write(
                            PortType::DebugPort,
                            DP_SELECT,
                            spec_select_value(addr.ap, spec_bank_of(AP_IDR), st0.current_dpbanksel),
                        ),
                    ).push(Transaction::Read(PortType::AccessPort, AP_IDR, idr)));
                }
                assert(probe.plog() == classification_log(
                    st0,
                    addr,
                    l0,
                    idr,
                    0u32,
                    None,
                    0u32,
                    0u32,
                ));
            }
            Ok(ApInformation::Other { address: addr })
        }
    }
}

} // verus!
