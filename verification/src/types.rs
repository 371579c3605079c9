//! What the operations return, and where the device is reached.

use vstd::prelude::*;
use crate::hex::{decimal_digits, to_decimal};
use crate::text::views;

verus! {

/// What the device says of itself.
#[derive(Debug, PartialEq, Eq)]
pub struct Infos {
    pub version: String,
    pub dev_type: String,
    pub game: String,
    pub flags: Vec<String>,
}

/// What an `Infos` holds.
pub struct InfosView {
    pub version: Seq<char>,
    pub dev_type: Seq<char>,
    pub game: Seq<char>,
    pub flags: Seq<Seq<char>>,
}

impl View for Infos {
    type V = InfosView;

    open spec fn view(&self) -> InfosView {
        InfosView {
            version: self.version@,
            dev_type: self.dev_type@,
            game: self.game@,
            flags: views(self.flags@),
        }
    }
}

/// Whether an entry of a directory is a file or a directory.
#[derive(Debug, Clone, Copy, PartialEq, Eq, Structural)]
pub enum USB2SnesFileType {
    File,
    Dir,
}

/// An entry of a directory on the device.
#[derive(Debug, PartialEq, Eq)]
pub struct USB2SnesFileInfo {
    pub name: String,
    pub file_type: USB2SnesFileType,
}

/// What a `USB2SnesFileInfo` holds.
pub struct FileInfoView {
    pub name: Seq<char>,
    pub file_type: USB2SnesFileType,
}

impl View for USB2SnesFileInfo {
    type V = FileInfoView;

    open spec fn view(&self) -> FileInfoView {
        FileInfoView { name: self.name@, file_type: self.file_type }
    }
}

/// The entries that a list of file infos stands for.
pub open spec fn file_infos(v: Seq<USB2SnesFileInfo>) -> Seq<FileInfoView> {
    Seq::new(v.len(), |i: int| v[i]@)
}

/// Where the device's server listens.
#[derive(Debug)]
pub struct USB2SnesEndpoint {
    pub address: String,
    pub port: u16,
}

/// The port that the server listens on unless told otherwise.
pub const DEFAULT_PORT: u16 = 23074;

/// The host of the default endpoint.
pub open spec fn default_address() -> Seq<char> {
    "127.0.0.1"@
}

/// What the address of a socket starts with.
pub open spec fn url_scheme() -> Seq<char> {
    "ws://"@
}

/// The address of the endpoint's socket: `ws://`, the host, a colon and the
/// port in decimal.
pub open spec fn url_of(address: Seq<char>, port: u16) -> Seq<char> {
    url_scheme() + address + seq![':'] + decimal_digits(port as nat)
}

impl Default for USB2SnesEndpoint {
    fn default() -> (e: Self)
        ensures
            e.address@ == default_address(),
            e.port == DEFAULT_PORT,
    {
        USB2SnesEndpoint { address: "127.0.0.1".to_owned(), port: DEFAULT_PORT }
    }
}

impl USB2SnesEndpoint {
    /// The address to connect to.
    pub fn url(&self) -> (url: String)
        ensures
            url@ == url_of(self.address@, self.port),
    {
        let mut url = "ws://".to_owned();
        url.append(self.address.as_str());
        url.push(':');
        let port = to_decimal(self.port as u64);
        url.append(port.as_str());
        url
    }
}

} // verus!
