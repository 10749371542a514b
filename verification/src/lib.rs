//! Shared-memory registers built up from safe boolean registers: safe, regular,
//! M-valued regular and atomic registers, single- and multi-reader, single- and
//! multi-writer, together with the state of the simulator that shows them at work.

pub mod stamped_values;

pub mod safe_registers;

pub mod safe_mrsw;

pub mod regular_registers;

pub mod m_regular;

pub mod atomic_srsw;

pub mod atomic_mrsw;

pub mod atomic_mrmw;

pub mod app_model;
