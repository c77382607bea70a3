//! The guest-to-host side channel: what an I/O-port exit of the guest
//! means, and the serial line the guest prints through.
use vstd::prelude::*;

use crate::types::X86TestFn;

verus! {

/// Serial line status port of the first serial port.
pub const SERIAL_STATUS_PORT: u16 = 0x3fd;
/// Serial line status port of the second serial port.
pub const SERIAL2_STATUS_PORT: u16 = 0x2fd;
/// Data port of the first serial port: its bytes reach the host's output.
pub const SERIAL_DATA_PORT: u16 = 0x3f8;
/// Data port of the second serial port: its bytes are dropped.
pub const SERIAL2_DATA_PORT: u16 = 0x2f8;
/// Writing here ends the test: 0 for success, anything else a panic code.
pub const SHUTDOWN_PORT: u16 = 0xf4;
/// Line status value that reports the transmitter ready.
pub const SERIAL_TX_READY: u64 = 0x20;

/// Direction of a port access, from the guest's point of view.
#[derive(Debug, PartialEq, Eq, Structural, Copy, Clone)]
pub enum IoDirection {
    In,
    Out,
}

/// A port access the side channel does not expect.
#[derive(Debug, PartialEq, Eq, Structural, Copy, Clone)]
pub enum IoHandleError {
    UnexpectedWrite(u16, u32),
    UnexpectedRead(u16),
}

/// What a handled port access means for the test.
#[derive(Debug, PartialEq, Eq, Structural, Copy, Clone)]
pub enum IoHandleStatus {
    Handled,
    TestSuccessful,
    TestPanic(u8),
}

/// The result of an access to `port` in direction `dir` with `rax` in the
/// guest's RAX, for a test whose mocked input port is `reads`.
pub open spec fn spec_io_status(reads: (u16, u32), dir: IoDirection, port: u16, rax: u64) -> Result<
    IoHandleStatus,
    IoHandleError,
> {
    match dir {
        IoDirection::In => if port == SERIAL_STATUS_PORT || port == SERIAL2_STATUS_PORT || port
            == reads.0 {
            Ok(IoHandleStatus::Handled)
        } else {
            Err(IoHandleError::UnexpectedRead(port))
        },
        IoDirection::Out => if port == SERIAL_DATA_PORT || port == SERIAL2_DATA_PORT {
            Ok(IoHandleStatus::Handled)
        } else if port == SHUTDOWN_PORT && rax as u8 == 0 {
            Ok(IoHandleStatus::TestSuccessful)
        } else if port == SHUTDOWN_PORT {
            Ok(IoHandleStatus::TestPanic(rax as u8))
        } else {
            Err(IoHandleError::UnexpectedWrite(port, rax as u32))
        },
    }
}

/// The value to write back to the guest's RAX, if any.
pub open spec fn spec_io_rax(reads: (u16, u32), dir: IoDirection, port: u16) -> Option<u64> {
    match dir {
        IoDirection::In => if port == SERIAL_STATUS_PORT || port == SERIAL2_STATUS_PORT {
            Some(SERIAL_TX_READY)
        } else if port == reads.0 {
            Some(reads.1 as u64)
        } else {
            None
        },
        IoDirection::Out => None,
    }
}

/// One `SerialPrinter::write` of `byte`: with `before` pending, it hands
/// out `out` and leaves `after` pending.
pub open spec fn write_step(before: Seq<u8>, byte: u8, out: Option<Seq<u8>>, after: Seq<u8>) -> bool {
    if byte == 10u8 {
        out == Some(before.push(byte)) && after == Seq::<u8>::empty()
    } else {
        out is None && after == before.push(byte)
    }
}

/// The bytes of a handed-out line, if any.
pub open spec fn out_view(o: Option<Vec<u8>>) -> Option<Seq<u8>> {
    match o {
        Some(v) => Some(v@),
        None => None,
    }
}

/// Writing the bytes of a line `s` (one newline, at its end) one at a time
/// to a printer with nothing pending hands out nothing until the newline,
/// then exactly `s`, and leaves nothing pending.
pub proof fn lemma_serial_round_trip(
    s: Seq<u8>,
    pending: Seq<Seq<u8>>,
    outs: Seq<Option<Seq<u8>>>,
)
    requires
        s.len() >= 1,
        s.last() == 10u8,
        forall|i: int| 0 <= i < s.len() - 1 ==> s[i] != 10u8,
        pending.len() == s.len() + 1,
        outs.len() == s.len(),
        pending[0] == Seq::<u8>::empty(),
        forall|i: int|
            0 <= i < s.len() ==> write_step(pending[i], #[trigger] s[i], outs[i], pending[i + 1]),
    ensures
        outs.last() == Some(s),
        pending.last() == Seq::<u8>::empty(),
        forall|i: int| 0 <= i < s.len() - 1 ==> (#[trigger] outs[i]) is None,
{
    lemma_serial_prefix(s, pending, outs, s.len() - 1);
    let n = s.len() - 1;
    assert(write_step(pending[n], s[n], outs[n], pending[n + 1]));
    assert(s.subrange(0, n).push(s[n]) =~= s);
    assert forall|i: int| 0 <= i < s.len() - 1 implies (#[trigger] outs[i]) is None by {
        assert(write_step(pending[i], s[i], outs[i], pending[i + 1]));
    }
}

proof fn lemma_serial_prefix(s: Seq<u8>, pending: Seq<Seq<u8>>, outs: Seq<Option<Seq<u8>>>, k: int)
    requires
        0 <= k < s.len(),
        forall|i: int| 0 <= i < s.len() - 1 ==> s[i] != 10u8,
        pending.len() == s.len() + 1,
        outs.len() == s.len(),
        pending[0] == Seq::<u8>::empty(),
        forall|i: int|
            0 <= i < s.len() ==> write_step(pending[i], #[trigger] s[i], outs[i], pending[i + 1]),
    ensures
        pending[k] == s.subrange(0, k),
    decreases k,
{
    if k == 0 {
        assert(s.subrange(0, 0) =~= Seq::<u8>::empty());
    } else {
        lemma_serial_prefix(s, pending, outs, k - 1);
        assert(write_step(pending[k - 1], s[k - 1], outs[k - 1], pending[k]));
        assert(s.subrange(0, k - 1).push(s[k - 1]) =~= s.subrange(0, k));
    }
}

/// Everything the host has to do for one I/O exit.
pub struct IoExitAction {
    /// How the access is classified.
    pub status: Result<IoHandleStatus, IoHandleError>,
    /// A new value for the guest's RAX, to be written before it resumes.
    pub set_rax: Option<u64>,
    /// A completed line of serial output to print.
    pub output: Option<Vec<u8>>,
}

/// Collects the bytes the guest sends to the serial port and hands them
/// out a line at a time.
pub struct SerialPrinter {
    buffer: Vec<u8>,
}

impl SerialPrinter {
    /// The bytes received since the last line was handed out.
    pub closed spec fn pending(&self) -> Seq<u8> {
        self.buffer@
    }

    pub fn new() -> (r: SerialPrinter)
        ensures
            r.pending() == Seq::<u8>::empty(),
    {
        SerialPrinter { buffer: Vec::new() }
    }

    /// Take one byte. A newline completes the line: it is returned, with
    /// the newline, and the buffer is cleared.
    pub fn write(&mut self, byte: u8) -> (out: Option<Vec<u8>>)
        ensures
            write_step(old(self).pending(), byte, out_view(out), final(self).pending()),
    {
        self.buffer.push(byte);
        if byte == 10u8 {
            Some(self.flush())
        } else {
            None
        }
    }

    /// Hand out whatever was received since the last line, and clear it.
    pub fn flush(&mut self) -> (out: Vec<u8>)
        ensures
            out@ == old(self).pending(),
            final(self).pending() == Seq::<u8>::empty(),
    {
        let mut out: Vec<u8> = Vec::new();
        std::mem::swap(&mut out, &mut self.buffer);
        out
    }
}

/// Decide what an I/O exit means: the guest accessed `port` in direction
/// `direction` with `rax` in RAX. Bytes written to the first serial port
/// go to `printer`.
pub fn handle_ioexit(
    meta: &X86TestFn,
    direction: IoDirection,
    port: u16,
    rax: u64,
    printer: &mut SerialPrinter,
) -> (r: IoExitAction)
    ensures
        r.status == spec_io_status(meta.ioport_reads, direction, port, rax),
        r.set_rax == spec_io_rax(meta.ioport_reads, direction, port),
        direction == IoDirection::Out && port == SERIAL_DATA_PORT ==> write_step(
            old(printer).pending(),
            rax as u8,
            out_view(r.output),
            final(printer).pending(),
        ),
        !(direction == IoDirection::Out && port == SERIAL_DATA_PORT) ==> r.output is None
            && final(printer).pending() == old(printer).pending(),
{
    match direction {
        IoDirection::In => {
            if port == SERIAL_STATUS_PORT || port == SERIAL2_STATUS_PORT {
                IoExitAction {
                    status: Ok(IoHandleStatus::Handled),
                    set_rax: Some(SERIAL_TX_READY),
                    output: None,
                }
            } else if port == meta.ioport_reads.0 {
                IoExitAction {
                    status: Ok(IoHandleStatus::Handled),
                    set_rax: Some(meta.ioport_reads.1 as u64),
                    output: None,
                }
            } else {
                IoExitAction {
                    status: Err(IoHandleError::UnexpectedRead(port)),
                    set_rax: None,
                    output: None,
                }
            }
        },
        IoDirection::Out => {
            if port == SERIAL_DATA_PORT {
                let output = printer.write(rax as u8);
                IoExitAction { status: Ok(IoHandleStatus::Handled), set_rax: None, output }
            } else if port == SERIAL2_DATA_PORT {
                IoExitAction { status: Ok(IoHandleStatus::Handled), set_rax: None, output: None }
            } else if port == SHUTDOWN_PORT && rax as u8 == 0 {
                IoExitAction {
                    status: Ok(IoHandleStatus::TestSuccessful),
                    set_rax: None,
                    output: None,
                }
            } else if port == SHUTDOWN_PORT {
                IoExitAction {
                    status: Ok(IoHandleStatus::TestPanic(rax as u8)),
                    set_rax: None,
                    output: None,
                }
            } else {
                IoExitAction {
                    status: Err(IoHandleError::UnexpectedWrite(port, rax as u32)),
                    set_rax: None,
                    output: None,
                }
            }
        },
    }
}

} // verus!
