//! The debug log, a serial line: what to write to its ports. The caller
//! moves the bytes.

use vstd::prelude::*;

verus! {

/// The first port of the first serial line.
pub const COM1: u16 = 0x3f8;

/// The bit of the line status that says that the next byte can be sent.
pub const TRANSMIT_EMPTY: u8 = 0x20;

/// One byte to write to a port.
#[derive(Debug, Clone, Copy, PartialEq, Eq, Structural)]
pub struct PortWrite {
    pub port: u16,
    pub value: u8,
}

/// A serial line, by the first of its eight ports.
pub struct SerialPort {
    port: u16,
}

/// The writes that set a serial line up: interrupts off, the divisor of
/// the rate set to 3, eight bits without parity and one stop bit, the
/// buffers on and cleared, and the line tested and switched to normal
/// operation.
pub open spec fn setup_writes(port: u16) -> Seq<PortWrite> {
    seq![
        PortWrite { port: (port + 1) as u16, value: 0x00 },
        PortWrite { port: (port + 3) as u16, value: 0x80 },
        PortWrite { port, value: 0x03 },
        PortWrite { port: (port + 1) as u16, value: 0x00 },
        PortWrite { port: (port + 3) as u16, value: 0x03 },
        PortWrite { port: (port + 2) as u16, value: 0xc7 },
        PortWrite { port: (port + 4) as u16, value: 0x0b },
        PortWrite { port: (port + 4) as u16, value: 0x1e },
        PortWrite { port: (port + 4) as u16, value: 0x0f },
    ]
}

impl SerialPort {
    #[verifier::type_invariant]
    spec fn ports_exist(self) -> bool {
        self.port <= u16::MAX - 7
    }

    /// The first port of the line.
    pub closed spec fn base(&self) -> u16 {
        self.port
    }

    /// The serial line at `port`, with the writes that set it up, in the
    /// order in which the caller has to make them.
    pub fn init(port: u16) -> (line: (SerialPort, [PortWrite; 9]))
        requires
            port <= u16::MAX - 7,
        ensures
            line.0.base() == port,
            line.1@ == setup_writes(port),
    {
        let writes = [
            PortWrite { port: port + 1, value: 0x00 },
            PortWrite { port: port + 3, value: 0x80 },
            PortWrite { port, value: 0x03 },
            PortWrite { port: port + 1, value: 0x00 },
            PortWrite { port: port + 3, value: 0x03 },
            PortWrite { port: port + 2, value: 0xc7 },
            PortWrite { port: port + 4, value: 0x0b },
            PortWrite { port: port + 4, value: 0x1e },
            PortWrite { port: port + 4, value: 0x0f },
        ];
        assert(writes@ =~= setup_writes(port));
        (SerialPort { port }, writes)
    }

    /// The port from which the status of the line is read.
    pub fn status_port(&self) -> (port: u16)
        ensures
            port == self.base() + 5,
    {
        proof {
            use_type_invariant(self);
        }
        self.port + 5
    }

    /// Whether the status says that the next byte can be written.
    pub fn ready(status: u8) -> (ready: bool)
        ensures
            ready == (status & TRANSMIT_EMPTY != 0),
    {
        status & TRANSMIT_EMPTY != 0
    }

    /// The write that sends one character of a message: the low eight bits
    /// of its code go to the first port of the line. Before each such write
    /// the caller waits until the line is ready.
    pub fn write(&self, character: char) -> (write: PortWrite)
        ensures
            write == (PortWrite { port: self.base(), value: character as u8 }),
    {
        PortWrite { port: self.port, value: #[verifier::truncate] (character as u8) }
    }
}

} // verus!
