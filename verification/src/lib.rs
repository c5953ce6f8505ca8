//! Control-plane protocol layer of an ARM debug-probe driver.
//!
//! The library turns a raw register read/write capability (the transport,
//! a collaborator implementing [`probe::DapProbe`]) into a safe, stateful
//! register-access API: a type-state initialization protocol, a selection
//! cache that issues the minimal number of SELECT writes, lazy access-port
//! discovery and classification, and chip identification by ROM-table walk.

pub mod chip;
pub mod interface;
pub mod probe;
pub mod registers;

pub use chip::{ArmChipInfo, Component, ComponentParser, JepCode};
pub use interface::{
    ApInformation, ArmCommunicationInterface, ArmDebugState, ArmError, DebugPortVersion, DpState,
    Initialized, MemoryApInformation, SwdSequence, Uninitialized,
};
pub use probe::{ArmDebugSequence, DapError, DapProbe, DefaultArmSequence, Transaction};
pub use registers::{ApAddress, DpAddress, GenericAp, MemoryAp, PortType};
