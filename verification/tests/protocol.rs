//! Tests of the selection cache, discovery, classification and the ROM
//! table walk, driven through a simulated probe that records every
//! physical transaction it is asked to perform.

use std::cell::RefCell;
use std::rc::Rc;

use arm_dap::{
    ApAddress, ApInformation, ArmChipInfo, ArmCommunicationInterface, ArmDebugSequence, ArmError,
    Component, ComponentParser, DapError, DapProbe, DefaultArmSequence, DpAddress, GenericAp,
    Initialized, JepCode, MemoryAp, PortType, Uninitialized,
};

#[derive(Clone, Copy, Debug, PartialEq)]
enum Call {
    SelectDp(DpAddress),
    Read(PortType, u8, u32),
    Write(PortType, u8, u32),
    Swj(u8, u64),
}

#[derive(Clone, Copy)]
struct ApSim {
    idr: u32,
    base: u32,
    base2: u32,
    csw: u32,
    csw_force_mask: u32,
    csw_force_value: u32,
}

impl ApSim {
    fn memory(base: u32, base2: u32) -> ApSim {
        ApSim { idr: 0x2477_0011, base, base2, csw: 0, csw_force_mask: 0, csw_force_value: 0 }
    }

    fn other() -> ApSim {
        // Non-zero IDR whose class field (bits 16:13) is not the Memory
        // AP class: present, but of a kind this layer does not specialize.
        ApSim { idr: 0x0476_0000, base: 0, base2: 0, csw: 0, csw_force_mask: 0, csw_force_value: 0 }
    }
}

struct MockState {
    calls: Vec<Call>,
    aps: Vec<ApSim>,
    dpidr: u32,
    ctrl: u32,
    selected_ap: u8,
    fail_selects: usize,
}

#[derive(Clone)]
struct MockProbe {
    st: Rc<RefCell<MockState>>,
}

impl MockProbe {
    fn new(aps: Vec<ApSim>) -> MockProbe {
        MockProbe {
            st: Rc::new(RefCell::new(MockState {
                calls: Vec::new(),
                aps,
                dpidr: 0x2BA0_1477,
                ctrl: 0xF000_0000,
                selected_ap: 0,
                fail_selects: 0,
            })),
        }
    }
}

fn select_writes(calls: &[Call]) -> Vec<u32> {
    calls
        .iter()
        .filter_map(|c| match c {
            Call::Write(PortType::DebugPort, 0x8, v) => Some(*v),
            _ => None,
        })
        .collect()
}

fn select_dp_count(calls: &[Call]) -> usize {
    calls.iter().filter(|c| matches!(c, Call::SelectDp(_))).count()
}

impl DapProbe for MockProbe {
    fn select_dp(&mut self, dp: DpAddress) -> Result<(), DapError> {
        let mut st = self.st.borrow_mut();
        st.calls.push(Call::SelectDp(dp));
        if st.fail_selects > 0 {
            st.fail_selects -= 1;
            return Err(DapError::NoAcknowledge);
        }
        Ok(())
    }

    fn raw_read_register(&mut self, port: PortType, addr: u8) -> Result<u32, DapError> {
        let mut st = self.st.borrow_mut();
        let v = match port {
            PortType::DebugPort => match addr & 0xF {
                0x0 => st.dpidr,
                0x4 => st.ctrl,
                _ => 0,
            },
            PortType::AccessPort => {
                let ap = st.selected_ap as usize;
                if ap < st.aps.len() {
                    let a = st.aps[ap];
                    match addr {
                        0xFC => a.idr,
                        0xF8 => a.base,
                        0xF0 => a.base2,
                        0x00 => a.csw,
                        _ => 0,
                    }
                } else {
                    0
                }
            }
        };
        st.calls.push(Call::Read(port, addr, v));
        Ok(v)
    }

    fn raw_write_register(&mut self, port: PortType, addr: u8, value: u32) -> Result<(), DapError> {
        let mut st = self.st.borrow_mut();
        st.calls.push(Call::Write(port, addr, value));
        match port {
            PortType::DebugPort => match addr & 0xF {
                0x8 => st.selected_ap = (value >> 24) as u8,
                0x0 => {
                    if value & 0x4 != 0 {
                        st.ctrl &= !0x20;
                    }
                }
                0x4 => {
                    st.ctrl = (st.ctrl & !0x1) | (value & 0x1);
                }
                _ => {}
            },
            PortType::AccessPort => {
                if addr == 0x00 {
                    let ap = st.selected_ap as usize;
                    if ap < st.aps.len() {
                        let mask = st.aps[ap].csw_force_mask;
                        let forced = st.aps[ap].csw_force_value;
                        st.aps[ap].csw = (value & !mask) | forced;
                    }
                }
            }
        }
        Ok(())
    }

    fn raw_read_block(
        &mut self,
        _port: PortType,
        _addr: u8,
        values: &mut Vec<u32>,
    ) -> Result<(), DapError> {
        for v in values.iter_mut() {
            *v = 0;
        }
        Ok(())
    }

    fn raw_write_block(
        &mut self,
        _port: PortType,
        _addr: u8,
        _values: &Vec<u32>,
    ) -> Result<(), DapError> {
        Ok(())
    }

    fn swj_sequence(&mut self, bit_len: u8, bits: u64) -> Result<(), DapError> {
        self.st.borrow_mut().calls.push(Call::Swj(bit_len, bits));
        Ok(())
    }

    fn swj_pins(&mut self, _pin_out: u32, _pin_select: u32, _pin_wait: u32) -> Result<u32, DapError> {
        Ok(0)
    }

    fn raw_flush(&mut self) -> Result<(), DapError> {
        Ok(())
    }
}

struct MockSequence;

impl ArmDebugSequence for MockSequence {
    fn debug_port_setup<P: DapProbe>(&self, _probe: &mut P) -> Result<(), DapError> {
        Ok(())
    }

    fn debug_port_start<P: DapProbe>(&self, _probe: &mut P, _dp: DpAddress) -> Result<(), DapError> {
        Ok(())
    }
}

fn initialized(
    probe: MockProbe,
) -> ArmCommunicationInterface<MockProbe, Initialized<MockSequence>> {
    ArmCommunicationInterface::new(probe, true)
        .initialize(MockSequence)
        .expect("bring-up should succeed")
}

struct MockParser {
    component: Component,
    calls: usize,
}

impl ComponentParser for MockParser {
    fn parse_component<P: DapProbe, SQ: ArmDebugSequence>(
        &mut self,
        _interface: &mut ArmCommunicationInterface<P, Initialized<SQ>>,
        _access_port: MemoryAp,
        _base_address: u64,
    ) -> Result<Component, ArmError> {
        self.calls += 1;
        Ok(self.component)
    }
}

fn dp() -> DpAddress {
    DpAddress::Default
}

fn ap(idx: u8) -> ApAddress {
    ApAddress { dp: dp(), ap: idx }
}

#[test]
fn select_same_dp_twice_issues_one_select() {
    let probe = MockProbe::new(vec![ApSim::memory(0x0000_1000, 0)]);
    let st = probe.st.clone();
    let mut iface = initialized(probe);
    iface.select_dp(dp()).unwrap();
    let after_first = select_dp_count(&st.borrow().calls);
    iface.select_dp(dp()).unwrap();
    assert_eq!(after_first, 1);
    assert_eq!(select_dp_count(&st.borrow().calls), 1);
}

#[test]
fn nonbanked_dp_accesses_issue_no_select_writes() {
    let probe = MockProbe::new(vec![]);
    let st = probe.st.clone();
    let mut iface = initialized(probe);
    iface.select_dp(dp()).unwrap();
    let n_before = select_writes(&st.borrow().calls).len();
    iface.read_raw_dp_register(dp(), 0x0).unwrap();
    iface.read_raw_dp_register(dp(), 0x8).unwrap();
    iface.read_raw_dp_register(dp(), 0xC).unwrap();
    iface.write_raw_dp_register(dp(), 0x0, 0x4).unwrap();
    assert_eq!(select_writes(&st.borrow().calls).len(), n_before);
}

#[test]
fn ap_bank_change_issues_one_select_keeping_fields() {
    let probe = MockProbe::new(vec![ApSim::memory(0x0000_1000, 0)]);
    let st = probe.st.clone();
    let mut iface = initialized(probe);
    // Discovery leaves AP 0 selected with bank 0 (the CSW restore was the
    // last AP access).
    iface.select_dp(dp()).unwrap();
    let n_before = select_writes(&st.borrow().calls).len();
    // Touch a register in bank 0xF of the same AP: exactly one SELECT
    // write goes out, with the AP-index field still 0 and the DP-bank
    // field still 0 - no accidental reset of the other selectors.
    iface.read_raw_ap_register(ap(0), 0xFC).unwrap();
    let writes = select_writes(&st.borrow().calls);
    assert_eq!(writes.len(), n_before + 1);
    assert_eq!(*writes.last().unwrap(), 0x0000_00F0);
}

#[test]
fn failed_select_reissues_transaction_on_retry() {
    let probe = MockProbe::new(vec![]);
    let st = probe.st.clone();
    let mut iface = initialized(probe);
    iface.select_dp(dp()).unwrap();
    // A physical select that fails clears the cached selection.
    st.borrow_mut().fail_selects = 1;
    let err = iface.select_dp(DpAddress::Multidrop(0x0100_0001)).unwrap_err();
    assert_eq!(err, ArmError::Dap(DapError::NoAcknowledge));
    // Retrying the original DP must issue a fresh physical select rather
    // than trust the stale cache.
    iface.select_dp(dp()).unwrap();
    assert_eq!(select_dp_count(&st.borrow().calls), 3);
}

#[test]
fn discovery_runs_once_and_ap_information_is_stable() {
    let probe = MockProbe::new(vec![ApSim::memory(0x0000_1000, 0), ApSim::other()]);
    let st = probe.st.clone();
    let mut iface = initialized(probe);
    let first = iface.ap_information(GenericAp { address: ap(0) }).unwrap();
    let count_after_first = st.borrow().calls.len();
    let second = iface.ap_information(GenericAp { address: ap(0) }).unwrap();
    let third = iface.ap_information(GenericAp { address: ap(1) }).unwrap();
    // The later lookups answered from the cached scan: not one further
    // physical transaction.
    assert_eq!(st.borrow().calls.len(), count_after_first);
    assert_eq!(first, second);
    assert!(matches!(third, ApInformation::Other { address } if address == ap(1)));
    assert_eq!(iface.num_access_ports(dp()).unwrap(), 2);
}

#[test]
fn extended_format_base_assembles_high_and_low_halves() {
    // BASE carries the ADIv5 extended format flag (bit 0) and BASEADDR
    // 0x1000 after the low 12 flag bits are masked; BASE2 carries 0x1:
    // the derived debug base address is 0x1_0000_1000.
    let mut iface = initialized(MockProbe::new(vec![ApSim::memory(0x0000_1001, 0x1)]));
    let info = iface.memory_interface(MemoryAp { address: ap(0) }).unwrap();
    assert_eq!(info.debug_base_address, 0x1_0000_1000);
    assert_eq!(info.address, ap(0));
}

#[test]
fn legacy_format_base_ignores_high_half() {
    let mut iface = initialized(MockProbe::new(vec![ApSim::memory(0x8000_0000, 0xFFFF_FFFF)]));
    let info = iface.memory_interface(MemoryAp { address: ap(0) }).unwrap();
    assert_eq!(info.debug_base_address, 0x8000_0000);
}

#[test]
fn classification_restores_csw_bit_for_bit() {
    let mut aps = vec![ApSim::memory(0x0000_1000, 0)];
    // A 32-bit-only port: the hardware coerces the size field of whatever
    // is written, so the 8-bit probe request does not survive readback.
    aps[0].csw = 0x2300_0042;
    aps[0].csw_force_mask = 0x7;
    aps[0].csw_force_value = 0x2;
    let probe = MockProbe::new(aps);
    let st = probe.st.clone();
    let mut iface = initialized(probe);
    let info = iface.memory_interface(MemoryAp { address: ap(0) }).unwrap();
    assert!(info.only_32bit_data_size);
    assert!(!info.supports_hnonsec);
    // The value stored in the AP is the original one, and the last CSW
    // write carried exactly the value the first CSW read returned.
    assert_eq!(st.borrow().aps[0].csw, 0x2300_0042);
    let calls = st.borrow().calls.clone();
    let csw_writes: Vec<u32> = calls
        .iter()
        .filter_map(|c| match c {
            Call::Write(PortType::AccessPort, 0x00, v) => Some(*v),
            _ => None,
        })
        .collect();
    assert_eq!(csw_writes.len(), 2);
    assert_eq!(csw_writes[1], 0x2300_0042);
    let csw_reads: Vec<u32> = calls
        .iter()
        .filter_map(|c| match c {
            Call::Read(PortType::AccessPort, 0x00, v) => Some(*v),
            _ => None,
        })
        .collect();
    assert_eq!(csw_reads[0], 0x2300_0042);
}

#[test]
fn hnonsec_support_comes_from_readback() {
    let mut aps = vec![ApSim::memory(0x0000_1000, 0)];
    aps[0].csw_force_mask = 0x4000_0000;
    aps[0].csw_force_value = 0x4000_0000;
    let mut iface = initialized(MockProbe::new(aps));
    let info = iface.memory_interface(MemoryAp { address: ap(0) }).unwrap();
    assert!(info.supports_hnonsec);
    assert!(!info.only_32bit_data_size);
}

#[test]
fn rom_walk_returns_first_match_and_stops() {
    // Only the third AP (index 2) is a Memory AP with an identifiable ROM
    // table; a fourth AP exists but must never be scanned once the third
    // matched.
    let aps = vec![
        ApSim::other(),
        ApSim::other(),
        ApSim::memory(0x0000_2000, 0),
        ApSim::memory(0x0000_3000, 0),
    ];
    let probe = MockProbe::new(aps);
    let st = probe.st.clone();
    let mut iface = initialized(probe);
    iface.select_dp(dp()).unwrap();
    let n_before = st.borrow().calls.len();
    let mut parser = MockParser {
        component: Component::Class1RomTable {
            jedec: Some(JepCode { cc: 0x08, id: 0x3B }),
            part: 0x1234,
        },
        calls: 0,
    };
    let found = iface.read_from_rom_table(dp(), &mut parser).unwrap();
    assert_eq!(
        found,
        Some(ArmChipInfo { manufacturer: JepCode { cc: 0x08, id: 0x3B }, part: 0x1234 })
    );
    assert_eq!(parser.calls, 1);
    // During the walk no SELECT write ever chose AP index 3: the fourth
    // AP was not scanned.
    let calls = st.borrow().calls.clone();
    let walk_selects = select_writes(&calls[n_before..]);
    assert!(walk_selects.iter().all(|v| (v >> 24) != 3));
    assert!(!walk_selects.is_empty());
}

#[test]
fn rom_walk_without_class1_table_is_empty_not_error() {
    let aps = vec![ApSim::memory(0x0000_2000, 0), ApSim::memory(0x0000_3000, 0)];
    let mut iface = initialized(MockProbe::new(aps));
    let mut parser = MockParser { component: Component::Other, calls: 0 };
    let found = iface.read_from_rom_table(dp(), &mut parser).unwrap();
    assert_eq!(found, None);
    assert_eq!(parser.calls, 2);
}

#[test]
fn rom_walk_with_unrecognized_jedec_is_empty() {
    let aps = vec![ApSim::memory(0x0000_2000, 0)];
    let mut iface = initialized(MockProbe::new(aps));
    let mut parser = MockParser {
        component: Component::Class1RomTable { jedec: None, part: 0x7777 },
        calls: 0,
    };
    assert_eq!(iface.read_from_rom_table(dp(), &mut parser).unwrap(), None);
}

#[test]
fn sticky_error_is_cleared_before_any_ap_read() {
    let probe = MockProbe::new(vec![ApSim::memory(0x0000_2000, 0)]);
    let st = probe.st.clone();
    let mut iface = initialized(probe);
    iface.select_dp(dp()).unwrap();
    // A prior failed scan left the sticky-error flag set.
    st.borrow_mut().ctrl |= 0x20;
    let n_before = st.borrow().calls.len();
    let mut parser = MockParser { component: Component::Other, calls: 0 };
    iface.read_from_rom_table(dp(), &mut parser).unwrap();
    let calls = st.borrow().calls.clone();
    let walk = &calls[n_before..];
    // First the CTRL/STAT read that observed the sticky flag, then the
    // ABORT write with the clear flag set, before any AP-space read.
    assert!(matches!(walk[0], Call::Read(PortType::DebugPort, 0x4, v) if v & 0x20 != 0));
    assert_eq!(walk[1], Call::Write(PortType::DebugPort, 0x0, 0x4));
    let first_ap_read = walk
        .iter()
        .position(|c| matches!(c, Call::Read(PortType::AccessPort, _, _)))
        .unwrap();
    assert!(first_ap_read > 1);
    // The simulated target saw its sticky flag cleared.
    assert_eq!(st.borrow().ctrl & 0x20, 0);
}

#[test]
fn ap_that_was_never_discovered_is_a_distinct_error() {
    let mut iface = initialized(MockProbe::new(vec![ApSim::memory(0x0000_1000, 0)]));
    let err = iface.ap_information(GenericAp { address: ap(5) }).unwrap_err();
    assert_eq!(err, ArmError::ApDoesNotExist(ap(5)));
}

#[test]
fn memory_interface_on_non_memory_ap_is_classification_error() {
    let mut iface = initialized(MockProbe::new(vec![ApSim::other()]));
    let err = iface.memory_interface(MemoryAp { address: ap(0) }).unwrap_err();
    assert_eq!(err, ArmError::NotMemoryAp(ap(0)));
}

#[test]
fn transport_failure_propagates_unchanged() {
    let probe = MockProbe::new(vec![]);
    let st = probe.st.clone();
    st.borrow_mut().fail_selects = 1;
    let mut iface = initialized(probe);
    let err = iface.select_dp(dp()).unwrap_err();
    assert_eq!(err, ArmError::Dap(DapError::NoAcknowledge));
}

#[test]
fn uninitialized_interface_reads_dpidr() {
    let probe = MockProbe::new(vec![]);
    let mut uninit: ArmCommunicationInterface<MockProbe, Uninitialized> =
        ArmCommunicationInterface::new(probe, false);
    assert_eq!(uninit.read_dpidr().unwrap(), 0x2BA0_1477);
}

#[test]
fn overrun_detect_preference_is_written_to_ctrl() {
    let probe = MockProbe::new(vec![]);
    let st = probe.st.clone();
    let mut iface = ArmCommunicationInterface::new(probe, true).initialize(MockSequence).unwrap();
    iface.select_dp(dp()).unwrap();
    assert_eq!(st.borrow().ctrl & 0x1, 0x1);
    let probe2 = MockProbe::new(vec![]);
    let st2 = probe2.st.clone();
    st2.borrow_mut().ctrl = 0xF000_0001;
    let mut iface2 =
        ArmCommunicationInterface::new(probe2, false).initialize(MockSequence).unwrap();
    iface2.select_dp(dp()).unwrap();
    assert_eq!(st2.borrow().ctrl & 0x1, 0x0);
}

#[test]
fn manufacturer_name_resolves_known_jedec_code() {
    let info = ArmChipInfo { manufacturer: JepCode { cc: 0x4, id: 0x3B }, part: 0x1234 };
    assert_eq!(info.manufacturer_name().as_deref(), Some("ARM Ltd"));
    let unknown = ArmChipInfo { manufacturer: JepCode { cc: 0x10, id: 0x7F }, part: 0 };
    assert_eq!(unknown.manufacturer_name(), None);
}

#[test]
fn default_sequence_switches_line_and_powers_up() {
    let probe = MockProbe::new(vec![]);
    let st = probe.st.clone();
    let mut iface = ArmCommunicationInterface::new(probe, true)
        .initialize(DefaultArmSequence::new())
        .expect("default bring-up against an acknowledging target");
    iface.select_dp(dp()).unwrap();
    assert!(st.borrow().calls.contains(&Call::Swj(16, 0xE79E)));
}

#[test]
fn default_sequence_reports_power_up_failure() {
    let probe = MockProbe::new(vec![]);
    probe.st.borrow_mut().ctrl = 0;
    let mut iface =
        ArmCommunicationInterface::new(probe, true).initialize(DefaultArmSequence::new()).unwrap();
    let err = iface.select_dp(dp()).unwrap_err();
    assert_eq!(err, ArmError::Dap(DapError::TargetPowerUpFailed));
}
