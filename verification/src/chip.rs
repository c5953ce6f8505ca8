//! Chip identification: walking the component tree rooted at each Memory
//! AP's debug base address for a class-1 ROM table that names the silicon.
//!
//! The component-tree parser itself is a collaborator reached through
//! [`ComponentParser`]; this layer decides which APs to visit, clears a
//! sticky error left by a prior failed scan before any AP is touched, and
//! stops at the first identifiable ROM table. Finding none is a normal
//! empty result, not an error: a locked or unrecognized device is an
//! expected outcome.

use vstd::prelude::*;
use crate::interface::{
    is_ctrl_read, ArmCommunicationInterface, ArmError, Initialized,
};
use crate::probe::{ArmDebugSequence, DapProbe, Transaction};
use crate::registers::{
    abort_clear_sticky_err, ctrl_sticky_err, idr_is_mem_ap, spec_abort_clear_sticky_err,
    spec_bank_of, spec_ctrl_sticky_err, spec_is_banked_dp_addr, ApAddress, DpAddress, MemoryAp,
    PortType, AP_IDR, DP_ABORT, DP_CTRL_STAT,
};

verus! {

/// A JEDEC JEP106 manufacturer code: continuation count and identity code.
#[derive(Clone, Copy, Debug, PartialEq, Eq, Structural, Hash)]
pub struct JepCode {
    /// The continuation code: which bank of the JEP106 list to look in.
    pub cc: u8,
    /// The identity code within that bank.
    pub id: u8,
}

/// What the component-tree collaborator parsed at a debug base address.
#[derive(Clone, Copy, Debug, PartialEq, Eq, Structural)]
pub enum Component {
    /// A class-1 ROM table: its peripheral identity carries a JEDEC code,
    /// when the identification block has one, and a part number.
    Class1RomTable {
        /// The manufacturer code, when the identification block carries a
        /// recognized one.
        jedec: Option<JepCode>,
        /// The 16-bit part number of the peripheral identity.
        part: u16,
    },
    /// A component of any other class.
    Other,
}

/// Identity of a chip, read from a class-1 ROM table.
#[derive(Clone, Copy, Debug, PartialEq, Eq, Structural)]
pub struct ArmChipInfo {
    /// The chip manufacturer's JEDEC code.
    pub manufacturer: JepCode,
    /// The 16-bit part number.
    pub part: u16,
}

/// The component-tree collaborator: parses the component at a base address,
/// reading target memory through the given Memory AP of the interface.
pub trait ComponentParser {
    /// The parses this collaborator has performed, oldest first: for each,
    /// the Memory AP it read through, the base address it was asked about,
    /// and the component it returned. An implementation that does not
    /// refine this view leaves it at the default; the contract below says
    /// how each successful parse extends it, which is what lets a walk's
    /// result be tied to what was parsed.
    open spec fn parsed(&self) -> Seq<(MemoryAp, u64, Component)> {
        Seq::empty()
    }

    /// Parses the component whose registers start at `base_address`.
    fn parse_component<P: DapProbe, SQ: ArmDebugSequence>(
        &mut self,
        interface: &mut ArmCommunicationInterface<P, Initialized<SQ>>,
        access_port: MemoryAp,
        base_address: u64,
    ) -> (r: Result<Component, ArmError>)
        requires
            old(interface).wf(),
        ensures
            final(interface).wf(),
            old(interface).plog().is_prefix_of(final(interface).plog()),
            forall|d: DpAddress|
                #[trigger] old(interface).has_dp(d) ==> final(interface).has_dp(d) && final(interface).dp_state(d).ap_information@ =~= old(interface).dp_state(d).ap_information@,
            r matches Ok(c) ==> final(self).parsed() == old(self).parsed().push(
                (access_port, base_address, c),
            ),
            r is Err ==> final(self).parsed() == old(self).parsed(),
    ;
}

/// The identity a parsed component yields: exactly the class-1 ROM tables
/// whose identification block carries a JEDEC code identify a chip; every
/// other component identifies nothing.
pub open spec fn spec_chip_identity(component: Component) -> Option<ArmChipInfo> {
    match component {
        Component::Class1RomTable { jedec: Some(manufacturer), part } => Some(
            ArmChipInfo { manufacturer, part },
        ),
        _ => None,
    }
}

/// The identity a parsed component yields: exactly the class-1 ROM tables
/// whose identification block carries a JEDEC code identify a chip; every
/// other component identifies nothing, which is not an error.
pub fn chip_identity_from_component(component: &Component) -> (r: Option<ArmChipInfo>)
    ensures
        r == spec_chip_identity(*component),
        r matches Some(ci) ==> *component == (Component::Class1RomTable {
            jedec: Some(ci.manufacturer),
            part: ci.part,
        }),
        r is Some <==> (*component matches Component::Class1RomTable { jedec: Some(_), .. }),
{
    match component {
        Component::Class1RomTable { jedec: Some(manufacturer), part } => Some(
            ArmChipInfo { manufacturer: *manufacturer, part: *part },
        ),
        _ => None,
    }
}

/// The manufacturer name the JEP106 list assigns to a code, if any.
pub uninterp spec fn jep_name(cc: u8, id: u8) -> Option<Seq<char>>;

/// Relies on jep106::JEP106Code::get: a pure lookup in the JEP106 table,
/// whose result depends on the code alone and which returns None for a
/// code the list does not know.
#[verifier::external_body]
fn jep106_lookup(cc: u8, id: u8) -> (r: Option<String>)
    ensures
        r matches Some(s) ==> jep_name(cc, id) == Some(s@),
        r is None ==> jep_name(cc, id) is None,
{
    jep106::JEP106Code::new(cc, id).get().map(|s| s.to_string())
}

impl ArmChipInfo {
    /// The manufacturer's name as the JEP106 list gives it, when the code
    /// is a recognized one.
    pub fn manufacturer_name(&self) -> (r: Option<String>)
        ensures
            r matches Some(s) ==> jep_name(self.manufacturer.cc, self.manufacturer.id) == Some(
                s@,
            ),
            r is Some <==> jep_name(self.manufacturer.cc, self.manufacturer.id) is Some,
    {
        jep106_lookup(self.manufacturer.cc, self.manufacturer.id)
    }
}

/// In a log whose transaction at `n0` is a CTRL/STAT read that returned a
/// value with the sticky-error flag set, the transaction right after it is
/// the ABORT write that clears the flag, or that write's faulted attempt;
/// in particular no AP register is touched in between.
pub open spec fn sticky_cleared_at(lg: Seq<Transaction>, n0: int) -> bool {
    &&& lg.len() > n0
    &&& forall|v: u32|
        lg[n0] == Transaction::Read(PortType::DebugPort, DP_CTRL_STAT, v)
            && #[trigger] spec_ctrl_sticky_err(v) ==> lg.len() > n0 + 1 && (lg[n0 + 1] == Transaction::Write(
            PortType::DebugPort,
            DP_ABORT,
            spec_abort_clear_sticky_err(),
        ) || lg[n0 + 1] == Transaction::Fault)
}

/// Extending the log cannot undo the sticky-clearing shape: it speaks only
/// of positions that a longer log keeps.
pub proof fn lemma_sticky_cleared_prefix(a: Seq<Transaction>, b: Seq<Transaction>, n0: int)
    requires
        sticky_cleared_at(a, n0),
        a.is_prefix_of(b),
        0 <= n0,
    ensures
        sticky_cleared_at(b, n0),
{
    crate::interface::lemma_prefix_index(a, b, n0);
    assert(b.len() >= a.len());
    assert forall|v: u32|
        b[n0] == Transaction::Read(PortType::DebugPort, DP_CTRL_STAT, v)
            && #[trigger] spec_ctrl_sticky_err(v) implies b.len() > n0 + 1 && (b[n0 + 1]
        == Transaction::Write(PortType::DebugPort, DP_ABORT, spec_abort_clear_sticky_err()) || b[n0
        + 1] == Transaction::Fault) by {
        assert(a[n0] == b[n0]);
        assert(a.len() > n0 + 1);
        crate::interface::lemma_prefix_index(a, b, n0 + 1);
    }
}

/// When the transaction at `n0` is a CTRL/STAT read whose value did not
/// report a sticky error, whatever follows it is not an ABORT write: the
/// clear is issued only against an observed sticky error.
pub open spec fn no_spurious_abort_at(lg: Seq<Transaction>, n0: int) -> bool {
    forall|v: u32|
        lg.len() > n0 && lg[n0] == Transaction::Read(PortType::DebugPort, DP_CTRL_STAT, v) && !(
        #[trigger] spec_ctrl_sticky_err(v)) && lg.len() > n0 + 1 ==> !crate::interface::is_abort_write(
            lg[n0 + 1],
        )
}

/// Once the position after the CTRL/STAT read is written, extending the
/// log cannot make it an ABORT write.
pub proof fn lemma_no_spurious_prefix(a: Seq<Transaction>, b: Seq<Transaction>, n0: int)
    requires
        no_spurious_abort_at(a, n0),
        a.is_prefix_of(b),
        0 <= n0,
        a.len() > n0 + 1,
    ensures
        no_spurious_abort_at(b, n0),
{
    crate::interface::lemma_prefix_index(a, b, n0);
    crate::interface::lemma_prefix_index(a, b, n0 + 1);
}

impl<P: DapProbe, SQ: ArmDebugSequence> ArmCommunicationInterface<P, Initialized<SQ>> {
    /// Identifies the chip behind a debug port by walking its access
    /// ports: the first Memory AP whose parsed component is a class-1 ROM
    /// table with a recognized JEDEC code wins, and no further AP is
    /// scanned. Before any AP register is read, a sticky error reported by
    /// CTRL/STAT is cleared through an ABORT write, so a fault left by a
    /// prior failed scan cannot poison the walk. No identifiable ROM table
    /// is the normal empty result, not an error.
    ///
    /// The result is tied to the parser's record: an identity is returned
    /// exactly when the newest parse yielded an identifiable ROM table,
    /// every parse before it on this walk yielded none (first match wins),
    /// and the parses visit this debug port's Memory APs in ascending
    /// index order.
    pub fn read_from_rom_table<C: ComponentParser>(&mut self, dp: DpAddress, parser: &mut C) -> (r:
        Result<Option<ArmChipInfo>, ArmError>)
        requires
            old(self).wf(),
        ensures
            final(self).wf(),
            old(self).plog().is_prefix_of(final(self).plog()),
            old(self).current_dp() == Some(dp) && old(self).dp_state(dp).current_dpbanksel == 0
                ==> {
                &&& sticky_cleared_at(final(self).plog(), old(self).plog().len() as int)
                &&& (is_ctrl_read(final(self).plog()[old(self).plog().len() as int]) || final(self).plog()[old(self).plog().len() as int] == Transaction::Fault)
                &&& no_spurious_abort_at(final(self).plog(), old(self).plog().len() as int)
            },
            old(parser).parsed().is_prefix_of(final(parser).parsed()),
            forall|j: int|
                old(parser).parsed().len() <= j < final(parser).parsed().len() ==> (
                #[trigger] final(parser).parsed()[j]).0.address.dp == dp,
            forall|j: int, k: int|
                old(parser).parsed().len() <= j < k < final(parser).parsed().len() ==> (
                #[trigger] final(parser).parsed()[j]).0.address.ap < (#[trigger] final(parser).parsed()[k]).0.address.ap,
            r matches Ok(Some(ci)) ==> {
                let ps = final(parser).parsed();
                let np = old(parser).parsed().len() as int;
                &&& ps.len() > np
                &&& spec_chip_identity(ps.last().2) == Some(ci)
                &&& forall|j: int|
                    np <= j < ps.len() - 1 ==> spec_chip_identity((#[trigger] ps[j]).2) is None
            },
            r matches Ok(None) ==> forall|j: int|
                old(parser).parsed().len() <= j < final(parser).parsed().len()
                    ==> spec_chip_identity((#[trigger] final(parser).parsed()[j]).2) is None,
    {
        proof {
            assert((0x4u8 >> 4) == 0 && (0x4u8 & 0xF) == 4 && (0x0u8 >> 4) == 0 && (0x0u8 & 0xF)
                == 0) by (bit_vector);
            assert(spec_is_banked_dp_addr(DP_CTRL_STAT) && spec_bank_of(DP_CTRL_STAT) == 0);
            assert(!spec_is_banked_dp_addr(DP_ABORT));
        }
        let ghost n0: int = old(self).plog().len() as int;
        let ghost hypo: bool = old(self).current_dp() == Some(dp) && old(self).dp_state(
            dp,
        ).current_dpbanksel == 0;
        // A fault from a prior failed AP scan must not poison this walk:
        // check the sticky error first and clear it if set.
        let ctrl_res = self.read_raw_dp_register(dp, DP_CTRL_STAT);
        let ctrl = match ctrl_res {
            Ok(v) => v,
            Err(e) => {
                proof {
                    if hypo {
                        assert(sticky_cleared_at(self.plog(), n0));
                        assert(no_spurious_abort_at(self.plog(), n0));
                    }
                }
                return Err(e);
            },
        };
        if ctrl_sticky_err(ctrl) {
            let abort = abort_clear_sticky_err();
            let ghost mid = *self;
            let w_res = self.write_raw_dp_register(dp, DP_ABORT, abort);
            proof {
                crate::interface::lemma_prefix_trans(old(self).plog(), mid.plog(), self.plog());
                if hypo {
                    assert(sticky_cleared_at(self.plog(), n0));
                    assert(no_spurious_abort_at(self.plog(), n0));
                }
            }
            match w_res {
                Ok(_) => (),
                Err(e) => {
                    return Err(e);
                },
            }
        } else {
            proof {
                if hypo {
                    assert(sticky_cleared_at(self.plog(), n0));
                }
            }
        }
        let ghost l_pre = self.plog();
        proof {
            if hypo {
                assert(is_ctrl_read(l_pre[n0]));
                assert(no_spurious_abort_at(l_pre, n0));
            }
        }
        let mut ap_idx: usize = 0;
        loop
            invariant
                self.wf(),
                ap_idx <= 256,
                old(self).plog().is_prefix_of(l_pre),
                hypo == (old(self).current_dp() == Some(dp) && old(self).dp_state(
                    dp,
                ).current_dpbanksel == 0),
                n0 == old(self).plog().len() as int,
                hypo ==> sticky_cleared_at(l_pre, n0) && is_ctrl_read(l_pre[n0]),
                hypo ==> no_spurious_abort_at(self.plog(), n0) && (self.plog().len() > n0 + 1
                    || self.current_dp() == Some(dp)),
                l_pre.is_prefix_of(self.plog()),
                old(parser).parsed().is_prefix_of(parser.parsed()),
                forall|j: int|
                    old(parser).parsed().len() <= j < parser.parsed().len()
                        ==> spec_chip_identity((#[trigger] parser.parsed()[j]).2) is None && parser.parsed()[j].0.address.dp
                        == dp && (parser.parsed()[j].0.address.ap as int) < ap_idx as int,
                forall|j: int, k: int|
                    old(parser).parsed().len() <= j < k < parser.parsed().len() ==> (
                    #[trigger] parser.parsed()[j]).0.address.ap < (#[trigger] parser.parsed()[k]).0.address.ap,
            decreases 256 - ap_idx,
        {
            if ap_idx == 256 {
                break ;
            }
            let ap_addr = ApAddress { dp, ap: ap_idx as u8 };
            let ghost pre = *self;
            let idr_res = self.read_raw_ap_register(ap_addr, AP_IDR);
            proof {
                crate::interface::lemma_prefix_trans(l_pre, pre.plog(), self.plog());
                if hypo {
                    if pre.plog().len() > n0 + 1 {
                        lemma_no_spurious_prefix(pre.plog(), self.plog(), n0);
                    } else {
                        assert(pre.plog().len() == n0 + 1);
                        assert(pre.current_dp() == Some(dp));
                        assert forall|v: u32|
                            self.plog().len() > n0 && self.plog()[n0] == Transaction::Read(
                                PortType::DebugPort,
                                DP_CTRL_STAT,
                                v,
                            ) && !(#[trigger] spec_ctrl_sticky_err(v)) && self.plog().len() > n0
                            + 1 implies !crate::interface::is_abort_write(
                            self.plog()[n0 + 1],
                        ) by {
                            assert(n0 + 1 >= pre.plog().len());
                            assert(!crate::interface::is_abort_write(self.plog()[n0 + 1]));
                        }
                        assert(no_spurious_abort_at(self.plog(), n0));
                    }
                }
            }
            let idr = match idr_res {
                Ok(v) => v,
                Err(e) => {
                    proof {
                        crate::interface::lemma_prefix_trans(
                            old(self).plog(),
                            l_pre,
                            self.plog(),
                        );
                        if hypo {
                            lemma_sticky_cleared_prefix(l_pre, self.plog(), n0);
                            crate::interface::lemma_prefix_index(l_pre, self.plog(), n0);
                        }
                    }
                    return Err(e);
                },
            };
            proof {
                if hypo {
                    assert(self.plog().len() > n0 + 1);
                }
            }
            if idr == 0 {
                break ;
            }
            if idr_is_mem_ap(idr) {
                let ghost pre_mi = *self;
                let info = match self.memory_interface(MemoryAp { address: ap_addr }) {
                    Ok(info) => info,
                    Err(e) => {
                        proof {
                            crate::interface::lemma_prefix_trans(
                                l_pre,
                                pre_mi.plog(),
                                self.plog(),
                            );
                            crate::interface::lemma_prefix_trans(
                                old(self).plog(),
                                l_pre,
                                self.plog(),
                            );
                            if hypo {
                                lemma_sticky_cleared_prefix(l_pre, self.plog(), n0);
                                crate::interface::lemma_prefix_index(l_pre, self.plog(), n0);
                                lemma_no_spurious_prefix(pre_mi.plog(), self.plog(), n0);
                            }
                        }
                        return Err(e);
                    },
                };
                proof {
                    crate::interface::lemma_prefix_trans(l_pre, pre_mi.plog(), self.plog());
                    if hypo {
                        lemma_no_spurious_prefix(pre_mi.plog(), self.plog(), n0);
                    }
                }
                let baseaddr = info.debug_base_address;
                let ghost pre_parse = *self;
                let ghost parsed_pre = parser.parsed();
                let component = match parser.parse_component(
                    self,
                    MemoryAp { address: ap_addr },
                    baseaddr,
                ) {
                    Ok(c) => c,
                    Err(e) => {
                        proof {
                            crate::interface::lemma_prefix_trans(
                                l_pre,
                                pre_parse.plog(),
                                self.plog(),
                            );
                            crate::interface::lemma_prefix_trans(
                                old(self).plog(),
                                l_pre,
                                self.plog(),
                            );
                            if hypo {
                                lemma_sticky_cleared_prefix(l_pre, self.plog(), n0);
                                crate::interface::lemma_prefix_index(l_pre, self.plog(), n0);
                                lemma_no_spurious_prefix(pre_parse.plog(), self.plog(), n0);
                            }
                        }
                        return Err(e);
                    },
                };
                proof {
                    crate::interface::lemma_prefix_trans(l_pre, pre_parse.plog(), self.plog());
                    if hypo {
                        lemma_no_spurious_prefix(pre_parse.plog(), self.plog(), n0);
                    }
                    assert(parser.parsed() =~= parsed_pre.push(
                        (MemoryAp { address: ap_addr }, baseaddr, component),
                    ));
                    crate::interface::lemma_prefix_push(
                        parsed_pre,
                        (MemoryAp { address: ap_addr }, baseaddr, component),
                    );
                    crate::interface::lemma_prefix_trans(
                        old(parser).parsed(),
                        parsed_pre,
                        parser.parsed(),
                    );
                }
                match chip_identity_from_component(&component) {
                    Some(ci) => {
                        proof {
                            crate::interface::lemma_prefix_trans(
                                old(self).plog(),
                                l_pre,
                                self.plog(),
                            );
                            if hypo {
                                lemma_sticky_cleared_prefix(l_pre, self.plog(), n0);
                                crate::interface::lemma_prefix_index(l_pre, self.plog(), n0);
                            }
                            assert(parser.parsed().last().2 == component);
                        }
                        return Ok(Some(ci));
                    },
                    None => (),
                }
            }
            ap_idx = ap_idx + 1;
        }
        proof {
            crate::interface::lemma_prefix_trans(old(self).plog(), l_pre, self.plog());
            if hypo {
                lemma_sticky_cleared_prefix(l_pre, self.plog(), n0);
                crate::interface::lemma_prefix_index(l_pre, self.plog(), n0);
            }
        }
        Ok(None)
    }
}

} // verus!
