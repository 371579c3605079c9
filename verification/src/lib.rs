//! Client side of the usb2snes protocol, without the socket: requests are
//! encoded to text, replies are decoded from text, and binary payloads are
//! split into frames and put together again.

pub mod client;
pub mod command;
pub mod envelope;
pub mod error;
pub mod exchange;
pub mod frame;
pub mod hex;
pub mod json;
pub mod reassembly;
pub mod reply;
pub mod text;
pub mod types;

pub use client::{Response, Step, SyncClient, Transmission};
pub use command::{Command, Space};
pub use envelope::{USB2SnesQuery, USB2SnesResult};
pub use error::Error;
pub use frame::Frame;
pub use reassembly::{Reassembler, Status};
pub use types::{Infos, USB2SnesEndpoint, USB2SnesFileInfo, USB2SnesFileType};
