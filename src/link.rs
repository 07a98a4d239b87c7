use vstd::prelude::*;
use vstd::string::StringExecFns;

verus! {

/// Where the serial link stands, as the operator sees it.
#[derive(Clone, Copy, Debug, PartialEq, Eq, Structural)]
pub enum PortConnectionStatus {
    NoPortSelected,
    ConnectionSuccessful,
    ConnectionFailed,
    WritingFailed,
}

impl PortConnectionStatus {
    /// The text shown for each status.
    pub open spec fn text(self) -> Seq<char> {
        match self {
            PortConnectionStatus::ConnectionSuccessful => "Connection success!"@,
            PortConnectionStatus::ConnectionFailed => "Connection failed"@,
            PortConnectionStatus::WritingFailed => "Writing failed"@,
            PortConnectionStatus::NoPortSelected => "No port selected"@,
        }
    }

    pub fn to_string(&self) -> (r: String)
        ensures
            r@ == self.text(),
    {
        match self {
            PortConnectionStatus::ConnectionSuccessful => String::from_str("Connection success!"),
            PortConnectionStatus::ConnectionFailed => String::from_str("Connection failed"),
            PortConnectionStatus::WritingFailed => String::from_str("Writing failed"),
            PortConnectionStatus::NoPortSelected => String::from_str("No port selected"),
        }
    }

    /// The status after the operator asks to connect: `selected` tells whether a
    /// port was chosen, `opened` whether opening it succeeded.
    pub fn after_connect(selected: bool, opened: bool) -> (r: PortConnectionStatus)
        ensures
            r == (if !selected {
                PortConnectionStatus::NoPortSelected
            } else if opened {
                PortConnectionStatus::ConnectionSuccessful
            } else {
                PortConnectionStatus::ConnectionFailed
            }),
    {
        if !selected {
            PortConnectionStatus::NoPortSelected
        } else if opened {
            PortConnectionStatus::ConnectionSuccessful
        } else {
            PortConnectionStatus::ConnectionFailed
        }
    }

    /// Whether a frame is sent this cycle: a port must be open, and no write
    /// may have failed since the last connect.
    pub fn may_write(&self, port_open: bool) -> (r: bool)
        ensures
            r == (port_open && *self != PortConnectionStatus::WritingFailed),
    {
        port_open && !matches!(self, PortConnectionStatus::WritingFailed)
    }

    /// The status after a write: a failed write suspends writing, a good one
    /// leaves the status as it was.
    pub fn after_write(&self, written: bool) -> (r: PortConnectionStatus)
        ensures
            r == (if written {
                *self
            } else {
                PortConnectionStatus::WritingFailed
            }),
    {
        if written {
            *self
        } else {
            PortConnectionStatus::WritingFailed
        }
    }
}

} // verus!
