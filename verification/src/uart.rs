//! Programming a 16550 UART for the serial log: the port writes, and the
//! decision after the loopback test.
use vstd::prelude::*;

verus! {

/// A byte to write to an I/O port.
#[derive(Clone, Copy, Debug, PartialEq, Eq, Structural)]
pub struct PortWrite {
    pub port: u16,
    pub value: u8,
}

/// The byte sent through the loopback and expected back.
pub const LOOPBACK_TEST_BYTE: u8 = 0xB2;

/// The writes that set up the UART at `port` and start the loopback test,
/// in order: interrupts off, divisor latch on, divisor 3 (38400 baud), latch
/// off with 8 data bits, no parity and one stop bit, FIFOs on and cleared
/// with a 14-byte threshold, loopback mode, then the test byte.
pub fn initialization_writes(port: u16) -> (w: Vec<PortWrite>)
    requires
        port + 4 <= u16::MAX,
    ensures
        w@ == seq![
            PortWrite { port: (port + 2) as u16, value: 0x00 },
            PortWrite { port: (port + 3) as u16, value: 0x80 },
            PortWrite { port, value: 0x03 },
            PortWrite { port: (port + 1) as u16, value: 0x00 },
            PortWrite { port: (port + 3) as u16, value: 0x03 },
            PortWrite { port: (port + 2) as u16, value: 0xC7 },
            PortWrite { port: (port + 4) as u16, value: 0x0B },
            PortWrite { port, value: LOOPBACK_TEST_BYTE },
        ],
{
    let mut w: Vec<PortWrite> = Vec::new();
    w.push(PortWrite { port: port + 2, value: 0x00 });
    w.push(PortWrite { port: port + 3, value: 0x80 });
    w.push(PortWrite { port, value: 0x03 });
    w.push(PortWrite { port: port + 1, value: 0x00 });
    w.push(PortWrite { port: port + 3, value: 0x03 });
    w.push(PortWrite { port: port + 2, value: 0xC7 });
    w.push(PortWrite { port: port + 4, value: 0x0B });
    w.push(PortWrite { port, value: LOOPBACK_TEST_BYTE });
    w
}

/// After the loopback test, `echoed` being the byte read back from `port`:
/// the write that puts the UART in normal operation when the test byte came
/// back, `None` (the UART is faulty) otherwise.
pub fn initialization_finish(port: u16, echoed: u8) -> (r: Option<PortWrite>)
    requires
        port + 4 <= u16::MAX,
    ensures
        echoed == LOOPBACK_TEST_BYTE ==> r == Some(PortWrite { port: (port + 4) as u16, value: 0x0F }),
        echoed != LOOPBACK_TEST_BYTE ==> r is None,
{
    if echoed != LOOPBACK_TEST_BYTE {
        None
    } else {
        Some(PortWrite { port: port + 4, value: 0x0F })
    }
}

} // verus!
