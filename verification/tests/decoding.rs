//! Tests of the register field decoding and encoding helpers.

use arm_dap::registers::{
    abort_clear_sticky_err, addr_of, assemble_base_address, bank_of, base_is_adiv5_format,
    csw_hnonsec, csw_probe_value, csw_size, ctrl_orun_detect, ctrl_set_orun_detect,
    ctrl_sticky_err, dpidr_version, idr_class, idr_is_mem_ap, select_value,
};
use arm_dap::{DapError, DebugPortVersion};

#[test]
fn register_addresses_split_into_bank_and_address() {
    assert_eq!(bank_of(0xF8), 0xF);
    assert_eq!(addr_of(0xF8), 0x8);
    assert_eq!(bank_of(0x04), 0x0);
    assert_eq!(addr_of(0x04), 0x4);
}

#[test]
fn select_value_encodes_the_three_selectors() {
    assert_eq!(select_value(0xAB, 0xF, 0x3), 0xAB00_00F3);
    assert_eq!(select_value(0, 0, 0), 0);
    assert_eq!(select_value(1, 0xF, 0), 0x0100_00F0);
}

#[test]
fn ctrl_flags_decode_and_orun_forcing_keeps_other_bits() {
    assert!(ctrl_sticky_err(0x0000_0020));
    assert!(!ctrl_sticky_err(0x0000_0000));
    assert!(ctrl_orun_detect(0x1));
    let forced_on = ctrl_set_orun_detect(0xF000_0020, true);
    assert_eq!(forced_on, 0xF000_0021);
    let forced_off = ctrl_set_orun_detect(0xF000_0021, false);
    assert_eq!(forced_off, 0xF000_0020);
}

#[test]
fn abort_value_clears_only_sticky_errors() {
    assert_eq!(abort_clear_sticky_err(), 0x4);
}

#[test]
fn idr_class_field_identifies_memory_aps() {
    assert_eq!(idr_class(0x2477_0011), 0x8);
    assert!(idr_is_mem_ap(0x2477_0011));
    assert!(!idr_is_mem_ap(0x0476_0000));
    assert!(!idr_is_mem_ap(0));
}

#[test]
fn base_address_assembly_masks_flags_and_ors_high_half() {
    assert!(base_is_adiv5_format(0x0000_1001));
    assert!(!base_is_adiv5_format(0x0000_1000));
    assert_eq!(assemble_base_address(0x0000_1001, Some(0x1)), 0x1_0000_1000);
    assert_eq!(assemble_base_address(0x0000_1FFF, Some(0x1)), 0x1_0000_1000);
    assert_eq!(assemble_base_address(0x8000_0000, None), 0x8000_0000);
    assert_eq!(assemble_base_address(0xFFFF_FFFF, Some(0xFFFF_FFFF)), 0xFFFF_FFFF_FFFF_F000);
}

#[test]
fn csw_fields_decode() {
    assert_eq!(csw_size(0x2300_0042), 0x2);
    assert!(!csw_hnonsec(0x2300_0042));
    assert!(csw_hnonsec(0x4000_0000));
    assert_eq!(csw_probe_value(), 0);
}

#[test]
fn dpidr_version_field_maps_to_protocol_versions() {
    assert_eq!(dpidr_version(0x2BA0_1477), 1);
    assert_eq!(DebugPortVersion::from_raw(1), DebugPortVersion::DpV1);
    assert_eq!(DebugPortVersion::from_raw(2), DebugPortVersion::DpV2);
    assert_eq!(DebugPortVersion::from_raw(3), DebugPortVersion::DpV3);
    assert_eq!(DebugPortVersion::from_raw(9), DebugPortVersion::Unsupported(9));
}

#[test]
fn transport_errors_describe_themselves() {
    assert!(!DapError::SwdProtocol.message().is_empty());
    assert!(!DapError::TargetPowerUpFailed.message().is_empty());
    assert_ne!(DapError::WaitResponse.message(), DapError::FaultResponse.message());
}
