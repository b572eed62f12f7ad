//! Framing for display controllers on a two-wire bus.
//!
//! A display controller on such a bus tells command bytes from data bytes by
//! a control byte that opens every transaction. This library inserts that
//! byte, cuts long payloads into transactions of bounded size, and decides
//! after each write whether the transfer goes on, is complete, or has failed.
//! It performs no bus access itself: a [`Transfer`] names the next thing to
//! do, and whoever owns the bus does it and reports back.
//!
//! ```ignore
//! let mut transfer = interface.send_data(Payload::Bytes(&pixels));
//! let result = loop {
//!     match transfer.pull_from(&mut core::iter::empty()) {
//!         Action::Write { address, frame } => {
//!             let taken = bus.write(address, frame.as_slice()).is_ok();
//!             transfer.step(if taken { Event::Written } else { Event::WriteFailed });
//!         }
//!         Action::Pull => {}
//!         Action::Done(result) => break result,
//!     }
//! };
//! ```
//!
//! The contracts are stated over [`TransferView`], and [`laws`] holds what
//! follows from them for whole transfers: how many writes a payload takes,
//! that the frames carry it unchanged, and where a refused write leaves it.

pub mod format;
pub mod frame;
pub mod interface;
pub mod laws;
pub mod transfer;

pub use format::{DisplayError, Payload};
pub use frame::Frame;
pub use interface::I2CInterface;
pub use transfer::{Action, Event, Kind, Phase, Request, Transfer, TransferView};
