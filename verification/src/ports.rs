//! Naming enumerated serial ports: the transport driver hands the core a
//! port name and a coarse kind, and the core renders the kind's tag.

use vstd::prelude::*;
use vstd::string::StringExecFns;

verus! {

/// Coarse type tag of an enumerated serial port.
#[derive(Debug, Clone, Copy, PartialEq, Eq, Structural)]
pub enum PortKind {
    Usb,
    Pci,
    Bluetooth,
    Unknown,
}

/// The tag shown for each kind of port.
pub open spec fn kind_label(k: PortKind) -> Seq<char> {
    match k {
        PortKind::Usb => "USB"@,
        PortKind::Pci => "PCI"@,
        PortKind::Bluetooth => "Bluetooth"@,
        PortKind::Unknown => "Unknown"@,
    }
}

impl PortKind {
    /// Render this kind's tag.
    pub fn label(&self) -> (r: String)
        ensures
            r@ == kind_label(*self),
    {
        match self {
            PortKind::Usb => String::from_str("USB"),
            PortKind::Pci => String::from_str("PCI"),
            PortKind::Bluetooth => String::from_str("Bluetooth"),
            PortKind::Unknown => String::from_str("Unknown"),
        }
    }
}

/// One enumerated serial port, as shown to the user: its name and the tag
/// of its kind.
#[derive(Debug, Clone, PartialEq)]
pub struct PortInfo {
    pub port_name: String,
    pub port_type: String,
}

impl PortInfo {
    /// Describe one port.
    pub fn new(name: String, kind: PortKind) -> (r: PortInfo)
        ensures
            r.port_name@ == name@,
            r.port_type@ == kind_label(kind),
    {
        let t = kind.label();
        PortInfo { port_name: name, port_type: t }
    }
}

} // verus!
