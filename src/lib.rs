//! A DICOM upper-layer protocol engine: PDU and DIMSE message codecs,
//! presentation-context negotiation, the association state machine, and the
//! decisions of the SCU operations and the SCP dispatcher. Every step is a
//! function from what arrived to what to send; the transport stays with the
//! caller.
pub mod error;
pub mod wire;

pub mod pdu;
pub mod pdv;
pub mod items;

pub mod message;
pub mod dimse;

pub mod negotiation;
pub mod association;

pub mod query;
pub mod scu;
pub mod scp;

pub mod model;
pub mod records;
pub mod anonymizer;
