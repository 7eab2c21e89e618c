//! Bus-master driver for DS18B20 thermometers behind a UART 1-Wire adapter.
//!
//! The driver performs no input or output itself. Each bus operation is
//! started on a [`OneWireAdapter`](adapter::OneWireAdapter), which answers
//! with the serial-port action to perform; the caller performs it and
//! resumes the adapter with the reply, until the adapter hands out the
//! operation's result.
//!
//! - [`transport`]: the actions, the replies and the errors.
//! - [`bits`]: how bits and bytes travel as bit slots.
//! - [`crc`]: the CRC-8 of ROM codes and scratchpads.
//! - [`link`]: the bus reset and the exchange of bit slots, as machines
//!   over serial-port actions.
//! - [`search`]: the decisions of the ROM search.
//! - [`protocol`]: the operations as sequences of resets, exchanges and delays.
//! - [`adapter`]: the driver that ties these together.
//! - [`model`]: a bus of devices, and what the search finds on it.
//! - [`simulation`]: the whole driver run against such a bus.
//! - [`temperature`], [`config`], [`timestamp`]: the scratchpad's reading,
//!   the configuration text, and the stamp of a listing.
//! - [`strings`]: what is taken on trust of the standard library.

pub mod adapter;
pub mod bits;
pub mod config;
pub mod crc;
pub mod link;
pub mod model;
pub mod protocol;
pub mod search;
pub mod simulation;
pub mod strings;
pub mod temperature;
pub mod timestamp;
pub mod transport;

pub use adapter::{OneWireAdapter, Step};
pub use protocol::Outcome;
pub use temperature::Temperature;
pub use timestamp::format_timestamp;
pub use transport::{Action, OneWireError, Reply};
