//! The transport collaborator: raw register access to a probe, and the
//! bring-up sequence run against it.
//!
//! The physical transport is outside this layer. It is reached through the
//! [`DapProbe`] trait, whose implementations live with the probe drivers.
//! Each transaction a probe performs is recorded in a ghost log of
//! [`Transaction`] values; every contract of the selection machinery above
//! speaks of that log, so how many physical transactions an operation costs
//! is part of its specification.

use vstd::prelude::*;
use crate::registers::{DpAddress, PortType};

verus! {

/// A transport-protocol failure. Each is terminal for the attempted
/// operation and propagated unchanged; no retry happens in this layer.
#[derive(Clone, Copy, Debug, PartialEq, Eq, Structural)]
pub enum DapError {
    /// An error occurred in the SWD communication between probe and device.
    SwdProtocol,
    /// The target device did not respond to the request.
    NoAcknowledge,
    /// The target device responded with a FAULT response.
    FaultResponse,
    /// The target device responded with a WAIT response.
    WaitResponse,
    /// Target power-up failed.
    TargetPowerUpFailed,
    /// Incorrect parity on a READ request.
    IncorrectParity,
}

impl DapError {
    /// A short description of the failure.
    pub fn message(&self) -> (r: &'static str)
        ensures
            r@.len() > 0,
    {
        let s: &'static str = match self {
            DapError::SwdProtocol => "error in the SWD communication between probe and device",
            DapError::NoAcknowledge => "target device did not respond to request",
            DapError::FaultResponse => "target device responded with FAULT response",
            DapError::WaitResponse => "target device responded with WAIT response",
            DapError::TargetPowerUpFailed => "target power-up failed",
            DapError::IncorrectParity => "incorrect parity on READ request",
        };
        proof {
            reveal_strlit("error in the SWD communication between probe and device");
            reveal_strlit("target device did not respond to request");
            reveal_strlit("target device responded with FAULT response");
            reveal_strlit("target device responded with WAIT response");
            reveal_strlit("target power-up failed");
            reveal_strlit("incorrect parity on READ request");
        }
        s
    }
}

/// One physical transaction issued to the transport, as recorded in the
/// ghost transaction log of a [`DapProbe`].
pub enum Transaction {
    /// A protocol-level "select this debug port" transaction (issued for
    /// the attempt whether or not it succeeded).
    SelectDp(DpAddress),
    /// A completed single-register read and the value it returned.
    Read(PortType, u8, u32),
    /// A completed single-register write.
    Write(PortType, u8, u32),
    /// A completed block read: so many repeated reads of one register.
    ReadBlock(PortType, u8, usize),
    /// A completed block write: so many repeated writes of one register.
    WriteBlock(PortType, u8, usize),
    /// A raw line-level sequence passed through to the wire.
    SwjSequence(u8, u64),
    /// A raw pin operation.
    SwjPins(u32, u32, u32),
    /// A transaction that ended in a transport error.
    Fault,
}

/// Raw register access to a debug probe: the transport collaborator.
///
/// Implementations live with the probe drivers, outside this layer; what is
/// proved through this trait holds of implementations that keep its
/// contracts. The ghost [`Transaction`] log models the physical wire: each
/// method appends exactly what it put on the wire, so the selection cache
/// above can state how many transactions an operation issues.
pub trait DapProbe: Sized {
    /// The physical transactions this probe has issued, oldest first.
    /// An implementation that does not refine this view leaves it at the
    /// default; the contracts below describe how each call extends it.
    open spec fn log(&self) -> Seq<Transaction> {
        Seq::empty()
    }

    /// Issues the protocol-level transaction selecting a debug port. The
    /// attempt is recorded even when it fails.
    fn select_dp(&mut self, dp: DpAddress) -> (r: Result<(), DapError>)
        ensures
            final(self).log() == old(self).log().push(Transaction::SelectDp(dp)),
    ;

    /// Reads one register of the given space.
    fn raw_read_register(&mut self, port: PortType, addr: u8) -> (r: Result<u32, DapError>)
        ensures
            r matches Ok(v) ==> final(self).log() == old(self).log().push(
                Transaction::Read(port, addr, v),
            ),
            r is Err ==> final(self).log() == old(self).log().push(Transaction::Fault),
    ;

    /// Writes one register of the given space.
    fn raw_write_register(&mut self, port: PortType, addr: u8, value: u32) -> (r: Result<
        (),
        DapError,
    >)
        ensures
            r is Ok ==> final(self).log() == old(self).log().push(Transaction::Write(port, addr, value)),
            r is Err ==> final(self).log() == old(self).log().push(Transaction::Fault),
    ;

    /// Reads one register repeatedly, filling `values`.
    fn raw_read_block(&mut self, port: PortType, addr: u8, values: &mut Vec<u32>) -> (r: Result<
        (),
        DapError,
    >)
        ensures
            final(values)@.len() == old(values)@.len(),
            r is Ok ==> final(self).log() == old(self).log().push(
                Transaction::ReadBlock(port, addr, old(values)@.len() as usize),
            ),
            r is Err ==> final(self).log() == old(self).log().push(Transaction::Fault),
    ;

    /// Writes one register repeatedly from `values`.
    fn raw_write_block(&mut self, port: PortType, addr: u8, values: &Vec<u32>) -> (r: Result<
        (),
        DapError,
    >)
        ensures
            r is Ok ==> final(self).log() == old(self).log().push(
                Transaction::WriteBlock(port, addr, values@.len() as usize),
            ),
            r is Err ==> final(self).log() == old(self).log().push(Transaction::Fault),
    ;

    /// Passes a raw line-level bit sequence through to the wire.
    fn swj_sequence(&mut self, bit_len: u8, bits: u64) -> (r: Result<(), DapError>)
        ensures
            r is Ok ==> final(self).log() == old(self).log().push(
                Transaction::SwjSequence(bit_len, bits),
            ),
            r is Err ==> final(self).log() == old(self).log().push(Transaction::Fault),
    ;

    /// Drives the probe pins directly; returns the pin state read back.
    fn swj_pins(&mut self, pin_out: u32, pin_select: u32, pin_wait: u32) -> (r: Result<
        u32,
        DapError,
    >)
        ensures
            r is Ok ==> final(self).log() == old(self).log().push(
                Transaction::SwjPins(pin_out, pin_select, pin_wait),
            ),
            r is Err ==> final(self).log() == old(self).log().push(Transaction::Fault),
    ;

    /// Flushes buffered transactions to the wire; issues no new register
    /// transaction of its own.
    fn raw_flush(&mut self) -> (r: Result<(), DapError>)
        ensures
            final(self).log() == old(self).log(),
    ;
}

/// The debug-port bring-up sequence collaborator.
///
/// A sequence may issue arbitrary raw transactions against the transport;
/// its contracts promise only that the transaction log grows, never that it
/// is rewritten. Because it works on the raw transport, below the selection
/// cache, a sequence that changes the SELECT register must leave it at the
/// hardware reset value (all selectors zero) before returning: the
/// interface installs a fresh cache entry with exactly that assumption when
/// it first brings a debug port up.
pub trait ArmDebugSequence: Sized {
    /// Brings the debug port connection up far enough that register access
    /// can be attempted; run exactly once, before any other register
    /// access.
    fn debug_port_setup<P: DapProbe>(&self, probe: &mut P) -> (r: Result<(), DapError>)
        ensures
            old(probe).log().is_prefix_of(final(probe).log()),
    ;

    /// The per-debug-port start step, run once on the first selection of
    /// each debug port.
    fn debug_port_start<P: DapProbe>(&self, probe: &mut P, dp: DpAddress) -> (r: Result<
        (),
        DapError,
    >)
        ensures
            old(probe).log().is_prefix_of(final(probe).log()),
    ;
}

/// CTRL/STAT value requesting debug and system power-up.
pub const CTRL_POWER_UP_REQUEST: u32 = 0x5000_0000;

/// Whether a CTRL/STAT value acknowledges debug and system power-up
/// (CDBGPWRUPACK, bit 29, and CSYSPWRUPACK, bit 31).
pub open spec fn spec_ctrl_power_up_acked(v: u32) -> bool {
    v & 0xA000_0000 == 0xA000_0000
}

/// Reads the power-up acknowledgement flags of a CTRL/STAT value.
pub fn ctrl_power_up_acked(v: u32) -> (r: bool)
    ensures
        r == spec_ctrl_power_up_acked(v),
{
    v & 0xA000_0000 == 0xA000_0000
}

/// The default bring-up sequence, for callers with no chip-specific one:
/// a line reset with the JTAG-to-SWD switch, then a power-up request.
#[derive(Clone, Copy, Debug, PartialEq, Eq, Structural)]
pub struct DefaultArmSequence {
}

impl DefaultArmSequence {
    /// Creates the default bring-up sequence.
    pub fn new() -> (r: Self)
        ensures
            r == (DefaultArmSequence {  }),
    {
        DefaultArmSequence {  }
    }
}

impl ArmDebugSequence for DefaultArmSequence {
    /// Line reset, JTAG-to-SWD switch sequence, line reset, idle cycles,
    /// then a read of DPIDR to leave the port in a known state.
    fn debug_port_setup<P: DapProbe>(&self, probe: &mut P) -> (r: Result<(), DapError>)
        ensures
            old(probe).log().is_prefix_of(final(probe).log()),
            r is Ok ==> exists|v: u32|
                final(probe).log() == #[trigger] old(probe).log().push(
                    Transaction::SwjSequence(51, 0x0007_FFFF_FFFF_FFFF),
                ).push(Transaction::SwjSequence(16, 0xE79E)).push(
                    Transaction::SwjSequence(51, 0x0007_FFFF_FFFF_FFFF),
                ).push(Transaction::SwjSequence(8, 0)).push(
                    Transaction::Read(PortType::DebugPort, crate::registers::DP_DPIDR, v),
                ),
    {
        match probe.swj_sequence(51, 0x0007_FFFF_FFFF_FFFF) {
            Ok(_) => (),
            Err(e) => {
                return Err(e);
            },
        }
        match probe.swj_sequence(16, 0xE79E) {
            Ok(_) => (),
            Err(e) => {
                return Err(e);
            },
        }
        match probe.swj_sequence(51, 0x0007_FFFF_FFFF_FFFF) {
            Ok(_) => (),
            Err(e) => {
                return Err(e);
            },
        }
        match probe.swj_sequence(8, 0) {
            Ok(_) => (),
            Err(e) => {
                return Err(e);
            },
        }
        match probe.raw_read_register(PortType::DebugPort, crate::registers::DP_DPIDR) {
            Ok(_) => Ok(()),
            Err(e) => Err(e),
        }
    }

    /// Requests debug and system power-up through CTRL/STAT and checks the
    /// acknowledgement flags on readback.
    fn debug_port_start<P: DapProbe>(&self, probe: &mut P, dp: DpAddress) -> (r: Result<
        (),
        DapError,
    >)
        ensures
            old(probe).log().is_prefix_of(final(probe).log()),
            r is Ok ==> exists|v: u32|
                final(probe).log() == #[trigger] old(probe).log().push(
                    Transaction::Write(
                        PortType::DebugPort,
                        crate::registers::DP_CTRL_STAT,
                        CTRL_POWER_UP_REQUEST,
                    ),
                ).push(Transaction::Read(PortType::DebugPort, crate::registers::DP_CTRL_STAT, v))
                    && spec_ctrl_power_up_acked(v),
    {
        match probe.raw_write_register(
            PortType::DebugPort,
            crate::registers::DP_CTRL_STAT,
            CTRL_POWER_UP_REQUEST,
        ) {
            Ok(_) => (),
            Err(e) => {
                return Err(e);
            },
        }
        let ctrl = match probe.raw_read_register(
            PortType::DebugPort,
            crate::registers::DP_CTRL_STAT,
        ) {
            Ok(v) => v,
            Err(e) => {
                return Err(e);
            },
        };
        if ctrl_power_up_acked(ctrl) {
            Ok(())
        } else {
            Err(DapError::TargetPowerUpFailed)
        }
    }
}

} // verus!
