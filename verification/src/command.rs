//! The commands of the protocol and the address spaces that qualify them.

use vstd::prelude::*;

verus! {

/// The operation that a request asks the device to perform.
#[derive(Debug, Clone, Copy, PartialEq, Eq, Structural)]
pub enum Command {
    AppVersion,
    Name,
    DeviceList,
    Attach,
    Info,
    Boot,
    Reset,
    Menu,
    List,
    PutFile,
    GetFile,
    Rename,
    Remove,
    GetAddress,
}

/// The memory or file domain that a request applies to.
#[derive(Debug, Clone, Copy, PartialEq, Eq, Structural)]
#[allow(dead_code)]
pub enum Space {
    SNES,
    CMD,
}

impl Command {
    /// The tag under which the command travels in a request.
    pub open spec fn name_spec(self) -> Seq<char> {
        match self {
            Command::AppVersion => "AppVersion"@,
            Command::Name => "Name"@,
            Command::DeviceList => "DeviceList"@,
            Command::Attach => "Attach"@,
            Command::Info => "Info"@,
            Command::Boot => "Boot"@,
            Command::Reset => "Reset"@,
            Command::Menu => "Menu"@,
            Command::List => "List"@,
            Command::PutFile => "PutFile"@,
            Command::GetFile => "GetFile"@,
            Command::Rename => "Rename"@,
            Command::Remove => "Remove"@,
            Command::GetAddress => "GetAddress"@,
        }
    }

    /// The address space that the typed operations send with the command:
    /// none for the commands that identify the client or control the device,
    /// `SNES` for those that touch files or memory.
    pub open spec fn space_spec(self) -> Option<Space> {
        match self {
            Command::List
            | Command::PutFile
            | Command::GetFile
            | Command::Rename
            | Command::Remove
            | Command::GetAddress => Some(Space::SNES),
            _ => None,
        }
    }

    /// The command's tag.
    pub fn name(&self) -> (s: &'static str)
        ensures
            s@ == self.name_spec(),
    {
        match self {
            Command::AppVersion => "AppVersion",
            Command::Name => "Name",
            Command::DeviceList => "DeviceList",
            Command::Attach => "Attach",
            Command::Info => "Info",
            Command::Boot => "Boot",
            Command::Reset => "Reset",
            Command::Menu => "Menu",
            Command::List => "List",
            Command::PutFile => "PutFile",
            Command::GetFile => "GetFile",
            Command::Rename => "Rename",
            Command::Remove => "Remove",
            Command::GetAddress => "GetAddress",
        }
    }

    /// The command's tag, as a string of its own.
    pub fn to_string(&self) -> (s: String)
        ensures
            s@ == self.name_spec(),
    {
        self.name().to_owned()
    }

    /// The address space that goes with the command.
    pub fn space(&self) -> (space: Option<Space>)
        ensures
            space == self.space_spec(),
    {
        match self {
            Command::List
            | Command::PutFile
            | Command::GetFile
            | Command::Rename
            | Command::Remove
            | Command::GetAddress => Some(Space::SNES),
            _ => None,
        }
    }
}

impl Space {
    /// The tag under which the space travels in a request.
    pub open spec fn name_spec(self) -> Seq<char> {
        match self {
            Space::SNES => "SNES"@,
            Space::CMD => "CMD"@,
        }
    }

    /// The space's tag.
    pub fn name(&self) -> (s: &'static str)
        ensures
            s@ == self.name_spec(),
    {
        match self {
            Space::SNES => "SNES",
            Space::CMD => "CMD",
        }
    }

    /// The space's tag, as a string of its own.
    pub fn to_string(&self) -> (s: String)
        ensures
            s@ == self.name_spec(),
    {
        self.name().to_owned()
    }
}

} // verus!
