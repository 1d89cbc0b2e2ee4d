//! Session and stream-reassembly engine for a HID line scanner.
//!
//! A scanner delivers its codes as a raw byte stream, cut into reports at
//! arbitrary places and terminated line by line. This crate turns that stream
//! into discrete scan codes and decides what a device session reports:
//!
//! * [`ident`] reads hexadecimal vendor and product identifiers,
//! * [`device`] describes the devices found by an enumeration,
//! * [`lines`] defines how text falls into lines, codes and a pending fragment,
//! * [`framer`] reassembles the byte stream into scan codes,
//! * [`session`] is the state machine of one device session,
//! * [`text`] holds the few facts taken on trust from the standard library.
//!
//! The crate performs no I/O. A driver opens the device, reads from it and
//! delivers the notifications that the session hands back.
pub mod device;
pub mod framer;
pub mod ident;
pub mod lines;
pub mod session;
pub mod text;
