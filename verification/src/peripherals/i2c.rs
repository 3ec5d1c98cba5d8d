//! The I2C1 peripheral: the encoding of the fields of its registers, and the
//! drivers that write bytes to a device and read bytes from one.

use vstd::prelude::*;
use crate::bus;
use crate::bus::{Access, Request, test_bits};

verus! {

// ---------------------------------------------------------------------------
// Register fields
// ---------------------------------------------------------------------------

/// CR2.SADD1: bits 7:1 of the slave address.
pub const CR2_SADD1: u32 = 0xfe;
/// CR2.RD_WRN: transfer direction, set for a read.
pub const CR2_RD_WRN: u32 = 0x400;
/// CR2.START: generate a START condition.
pub const CR2_START: u32 = 0x2000;
/// CR2.NBYTES: number of bytes to transfer.
pub const CR2_NBYTES: u32 = 0xff_0000;
/// CR2.AUTOEND: send a STOP condition once NBYTES bytes have gone.
pub const CR2_AUTOEND: u32 = 0x200_0000;

/// ISR.TXIS: the transmit data register is empty and wants a byte.
pub const ISR_TXIS: u32 = 0x2;
/// ISR.RXNE: the receive data register holds a byte.
pub const ISR_RXNE: u32 = 0x4;
/// ISR.NACKF: a NACK was received.
pub const ISR_NACKF: u32 = 0x10;
/// ISR.STOPF: a STOP condition was detected.
pub const ISR_STOPF: u32 = 0x20;
/// ISR.TC: the transfer is complete.
pub const ISR_TC: u32 = 0x40;

/// ISR flags that end the address phase of the register request: TXIS,
/// NACKF, STOPF or TC.
pub const ISR_ADDRESS_DONE: u32 = ISR_TXIS | ISR_NACKF | ISR_STOPF | ISR_TC;

/// ICR.NACKCF and ICR.STOPCF: clear the NACK and STOP flags.
pub const ICR_CLEAR_STOP_NACK: u32 = 0x30;

/// The registers of I2C1 that the drivers touch.
#[derive(Debug, Clone, Copy, PartialEq, Eq, Structural)]
pub enum I2cReg {
    Cr2,
    Isr,
    Icr,
    Txdr,
    Rxdr,
}

/// The value of the field of `value` that starts at bit `shift` and that
/// `width_mask` (a mask of its width, not shifted) covers.
pub open spec fn field(value: u32, shift: u32, width_mask: u32) -> u32 {
    (value >> shift) & width_mask
}

/// CR2 after `sadd1().bits(addr).nbytes().bits(nbytes).rd_wrn().clear_bit()
/// .autoend().set_bit()`: the set-up of a write of `nbytes` bytes.
pub open spec fn cr2_address_write(old: u32, addr: u8, nbytes: u8) -> u32 {
    (old & !(CR2_SADD1 | CR2_NBYTES | CR2_RD_WRN)) | (((addr & 0x7f) as u32) << 1u32)
        | ((nbytes as u32) << 16u32) | CR2_AUTOEND
}

/// CR2 after `sadd1().bits(addr).nbytes().bits(1).rd_wrn().clear_bit()
/// .autoend().clear_bit()`: the set-up of the one-byte register request.
pub open spec fn cr2_address_request(old: u32, addr: u8) -> u32 {
    (old & !(CR2_SADD1 | CR2_NBYTES | CR2_RD_WRN | CR2_AUTOEND)) | (((addr & 0x7f) as u32) << 1u32)
        | 0x1_0000
}

/// CR2 after `sadd1().bits(addr).nbytes().bits(nbytes).rd_wrn().set_bit()`:
/// the set-up of a read of `nbytes` bytes; AUTOEND is left as it was.
pub open spec fn cr2_address_read(old: u32, addr: u8, nbytes: u8) -> u32 {
    (old & !(CR2_SADD1 | CR2_NBYTES)) | (((addr & 0x7f) as u32) << 1u32) | ((nbytes as u32) << 16u32)
        | CR2_RD_WRN
}

/// A register value with the bits of `mask` set.
pub open spec fn with_bits(old: u32, mask: u32) -> u32 {
    old | mask
}

/// Setting the bits of `mask` in a register value sets them and leaves
/// every other bit as it was.
pub proof fn lemma_with_bits(old: u32, mask: u32)
    by (bit_vector)
    ensures
        with_bits(old, mask) & mask == mask,
        with_bits(old, mask) & !mask == old & !mask,
{
}

/// The fields of the write set-up: SADD1 holds the low seven bits of the
/// address, NBYTES the count, RD_WRN is clear, AUTOEND is set, and every
/// other bit is as it was.
pub proof fn lemma_cr2_address_write(old: u32, addr: u8, nbytes: u8)
    by (bit_vector)
    ensures
        field(cr2_address_write(old, addr, nbytes), 1, 0x7f) == (addr % 128) as u32,
        field(cr2_address_write(old, addr, nbytes), 16, 0xff) == nbytes as u32,
        cr2_address_write(old, addr, nbytes) & CR2_RD_WRN == 0,
        cr2_address_write(old, addr, nbytes) & CR2_AUTOEND == CR2_AUTOEND,
        cr2_address_write(old, addr, nbytes) & !(CR2_SADD1 | CR2_NBYTES | CR2_RD_WRN | CR2_AUTOEND)
            == old & !(CR2_SADD1 | CR2_NBYTES | CR2_RD_WRN | CR2_AUTOEND),
{
}

/// The fields of the request set-up: SADD1 holds the low seven bits of the
/// address, NBYTES is one, RD_WRN and AUTOEND are clear, and every other bit
/// is as it was.
pub proof fn lemma_cr2_address_request(old: u32, addr: u8)
    by (bit_vector)
    ensures
        field(cr2_address_request(old, addr), 1, 0x7f) == (addr % 128) as u32,
        field(cr2_address_request(old, addr), 16, 0xff) == 1,
        cr2_address_request(old, addr) & CR2_RD_WRN == 0,
        cr2_address_request(old, addr) & CR2_AUTOEND == 0,
        cr2_address_request(old, addr) & !(CR2_SADD1 | CR2_NBYTES | CR2_RD_WRN | CR2_AUTOEND)
            == old & !(CR2_SADD1 | CR2_NBYTES | CR2_RD_WRN | CR2_AUTOEND),
{
}

/// The fields of the read set-up: SADD1 holds the low seven bits of the
/// address, NBYTES the count, RD_WRN is set, and every other bit, AUTOEND
/// among them, is as it was.
pub proof fn lemma_cr2_address_read(old: u32, addr: u8, nbytes: u8)
    by (bit_vector)
    ensures
        field(cr2_address_read(old, addr, nbytes), 1, 0x7f) == (addr % 128) as u32,
        field(cr2_address_read(old, addr, nbytes), 16, 0xff) == nbytes as u32,
        cr2_address_read(old, addr, nbytes) & CR2_RD_WRN == CR2_RD_WRN,
        cr2_address_read(old, addr, nbytes) & !(CR2_SADD1 | CR2_NBYTES | CR2_RD_WRN)
            == old & !(CR2_SADD1 | CR2_NBYTES | CR2_RD_WRN),
{
}

// ---------------------------------------------------------------------------
// Register values as the drivers compute them
// ---------------------------------------------------------------------------

fn compute_cr2_address_write(old: u32, addr: u8, nbytes: u8) -> (r: u32)
    ensures
        r == cr2_address_write(old, addr, nbytes),
{
    (old & !(CR2_SADD1 | CR2_NBYTES | CR2_RD_WRN)) | (((addr & 0x7f) as u32) << 1u32)
        | ((nbytes as u32) << 16u32) | CR2_AUTOEND
}

fn compute_cr2_address_request(old: u32, addr: u8) -> (r: u32)
    ensures
        r == cr2_address_request(old, addr),
{
    (old & !(CR2_SADD1 | CR2_NBYTES | CR2_RD_WRN | CR2_AUTOEND)) | (((addr & 0x7f) as u32) << 1u32)
        | 0x1_0000
}

fn compute_cr2_address_read(old: u32, addr: u8, nbytes: u8) -> (r: u32)
    ensures
        r == cr2_address_read(old, addr, nbytes),
{
    (old & !(CR2_SADD1 | CR2_NBYTES)) | (((addr & 0x7f) as u32) << 1u32) | ((nbytes as u32) << 16u32)
        | CR2_RD_WRN
}

// ---------------------------------------------------------------------------
// Facts about traces of I2C accesses
// ---------------------------------------------------------------------------

/// At position `j` of the trace, an ISR read that shows NACKF follows
/// directly on a write to TXDR: the device refused that byte.
pub open spec fn nack_at(trace: Seq<Access<I2cReg>>, j: int) -> bool {
    &&& 1 <= j < trace.len()
    &&& trace[j - 1] matches Access::Write(I2cReg::Txdr, _)
    &&& trace[j] matches Access::Read(I2cReg::Isr, v) && bus::has_bits(v, ISR_NACKF)
}

/// Some byte written to TXDR was refused.
pub open spec fn nacked(trace: Seq<Access<I2cReg>>) -> bool {
    exists|j: int| #[trigger] nack_at(trace, j)
}

/// If the access at `j` writes TXDR, the access just before it read ISR
/// and saw TXIS set.
pub open spec fn send_guarded(trace: Seq<Access<I2cReg>>, j: int) -> bool {
    trace[j] matches Access::Write(I2cReg::Txdr, _) ==> (j >= 1 && (trace[j - 1] matches Access::Read(
        I2cReg::Isr,
        v,
    ) && bus::has_bits(v, ISR_TXIS)))
}

/// TXDR is written only right after ISR showed TXIS.
pub open spec fn sends_guarded(trace: Seq<Access<I2cReg>>) -> bool {
    forall|j: int| 0 <= j < trace.len() ==> #[trigger] send_guarded(trace, j)
}

proof fn lemma_nacked_push(trace: Seq<Access<I2cReg>>, a: Access<I2cReg>)
    ensures
        nacked(trace.push(a)) == (nacked(trace) || (trace.len() >= 1 && (trace.last() matches Access::Write(
            I2cReg::Txdr,
            _,
        )) && (a matches Access::Read(I2cReg::Isr, v) && bus::has_bits(v, ISR_NACKF)))),
{
    let t = trace.push(a);
    if nacked(t) {
        let j = choose|j: int| #[trigger] nack_at(t, j);
        if j < trace.len() {
            assert(nack_at(trace, j));
        }
    }
    if nacked(trace) {
        let j = choose|j: int| #[trigger] nack_at(trace, j);
        assert(nack_at(t, j));
    }
    if trace.len() >= 1 && (trace.last() matches Access::Write(I2cReg::Txdr, _)) && (a matches Access::Read(
        I2cReg::Isr,
        v,
    ) && bus::has_bits(v, ISR_NACKF)) {
        assert(nack_at(t, trace.len() as int));
    }
}

proof fn lemma_sends_guarded_push(trace: Seq<Access<I2cReg>>, a: Access<I2cReg>)
    requires
        sends_guarded(trace),
        a matches Access::Write(I2cReg::Txdr, _) ==> (trace.len() >= 1 && (trace.last() matches Access::Read(
            I2cReg::Isr,
            v,
        ) && bus::has_bits(v, ISR_TXIS))),
    ensures
        sends_guarded(trace.push(a)),
{
    let t = trace.push(a);
    assert forall|j: int| 0 <= j < t.len() implies #[trigger] send_guarded(t, j) by {
        if j < trace.len() {
            assert(send_guarded(trace, j));
        }
    }
}

// ---------------------------------------------------------------------------
// Writing bytes to a device
// ---------------------------------------------------------------------------

/// Where a write of bytes to a device stands.
#[derive(Debug, Clone, Copy, PartialEq, Eq, Structural)]
pub enum WritePhase {
    /// Read CR2 to set up the address, the count and the direction.
    SetupRead,
    /// Write CR2 set up from the value read.
    SetupWrite(u32),
    /// Read CR2 to set START.
    StartRead,
    /// Write CR2 with START set.
    StartWrite(u32),
    /// Read ISR until TXIS shows, before byte `i`.
    WaitTxis(usize),
    /// Write byte `i` to TXDR.
    Send(usize),
    /// Read ISR to learn whether byte `i` was refused.
    CheckNack(usize),
    /// Clear the STOP and NACK flags; the flag tells whether every byte went.
    Clear(bool),
    /// Over; the flag tells whether every byte went.
    Finished(bool),
}

/// The access that a write of `data` to the device at `addr` asks for in
/// `phase`, or its result once it is over.
pub open spec fn write_request(addr: u8, data: Seq<u8>, phase: WritePhase) -> Request<I2cReg, Option<()>> {
    match phase {
        WritePhase::SetupRead => Request::Read(I2cReg::Cr2),
        WritePhase::SetupWrite(old) => Request::Write(
            I2cReg::Cr2,
            cr2_address_write(old, addr, data.len() as u8),
        ),
        WritePhase::StartRead => Request::Read(I2cReg::Cr2),
        WritePhase::StartWrite(old) => Request::Write(I2cReg::Cr2, with_bits(old, CR2_START)),
        WritePhase::WaitTxis(_) => Request::Read(I2cReg::Isr),
        WritePhase::Send(i) => Request::Write(I2cReg::Txdr, data[i as int] as u32),
        WritePhase::CheckNack(_) => Request::Read(I2cReg::Isr),
        WritePhase::Clear(_) => Request::Write(I2cReg::Icr, ICR_CLEAR_STOP_NACK),
        WritePhase::Finished(ok) => Request::Done(if ok { Some(()) } else { None }),
    }
}

/// The phase that follows `phase` once its access is made; `value` is what
/// a read gave back.
pub open spec fn write_next(data: Seq<u8>, phase: WritePhase, value: u32) -> WritePhase {
    match phase {
        WritePhase::SetupRead => WritePhase::SetupWrite(value),
        WritePhase::SetupWrite(_) => WritePhase::StartRead,
        WritePhase::StartRead => WritePhase::StartWrite(value),
        WritePhase::StartWrite(_) => if data.len() == 0 {
            WritePhase::Clear(true)
        } else {
            WritePhase::WaitTxis(0)
        },
        WritePhase::WaitTxis(i) => if bus::has_bits(value, ISR_TXIS) {
            WritePhase::Send(i)
        } else {
            WritePhase::WaitTxis(i)
        },
        WritePhase::Send(i) => WritePhase::CheckNack(i),
        WritePhase::CheckNack(i) => if bus::has_bits(value, ISR_NACKF) {
            WritePhase::Clear(false)
        } else if i + 1 < data.len() {
            WritePhase::WaitTxis((i + 1) as usize)
        } else {
            WritePhase::Clear(true)
        },
        WritePhase::Clear(ok) => WritePhase::Finished(ok),
        WritePhase::Finished(ok) => WritePhase::Finished(ok),
    }
}

/// The trace, less its last `after` accesses, ends with the last write to
/// TXDR and then an ISR read that shows NACKF: the byte refused was the last
/// one sent, and nothing went to TXDR after the refusal.
pub open spec fn refused_last(trace: Seq<Access<I2cReg>>, after: int) -> bool {
    let sent = bus::written(trace, I2cReg::Txdr);
    let end = trace.len() - after;
    &&& sent.len() >= 1
    &&& end >= 2
    &&& trace[end - 2] == Access::Write(I2cReg::Txdr, sent.last())
    &&& trace[end - 1] matches Access::Read(I2cReg::Isr, v) && bus::has_bits(v, ISR_NACKF)
}

/// The two CR2 accesses of the set-up and the two of START stand first in
/// the trace, and CR2 is not touched again.
pub open spec fn write_setup_done(addr: u8, n: nat, trace: Seq<Access<I2cReg>>) -> bool {
    let reads = bus::read_from(trace, I2cReg::Cr2);
    &&& trace.len() >= 4
    &&& reads.len() == 2
    &&& trace[0] == Access::Read(I2cReg::Cr2, reads[0])
    &&& trace[1] == Access::Write(I2cReg::Cr2, cr2_address_write(reads[0], addr, n as u8))
    &&& trace[2] == Access::Read(I2cReg::Cr2, reads[1])
    &&& trace[3] == Access::Write(I2cReg::Cr2, with_bits(reads[1], CR2_START))
    &&& bus::written(trace, I2cReg::Cr2) == seq![
        cr2_address_write(reads[0], addr, n as u8),
        with_bits(reads[1], CR2_START),
    ]
}

/// What holds of every state that a write of `data` to the device at `addr`
/// reaches from its start.
pub open spec fn write_inv(addr: u8, data: Seq<u8>, phase: WritePhase, trace: Seq<Access<I2cReg>>) -> bool {
    let n = data.len();
    let sent = bus::written(trace, I2cReg::Txdr);
    let reads = bus::read_from(trace, I2cReg::Cr2);
    &&& n <= usize::MAX
    &&& sends_guarded(trace)
    &&& sent.len() <= n
    &&& sent == bus::words_of(data).take(sent.len() as int)
    &&& match phase {
        WritePhase::SetupRead => trace == Seq::<Access<I2cReg>>::empty(),
        WritePhase::SetupWrite(old) => trace == seq![Access::Read(I2cReg::Cr2, old)],
        WritePhase::StartRead => {
            &&& trace.len() == 2
            &&& sent.len() == 0
            &&& reads.len() == 1
            &&& trace[0] == Access::Read(I2cReg::Cr2, reads[0])
            &&& trace[1] == Access::Write(I2cReg::Cr2, cr2_address_write(reads[0], addr, n as u8))
            &&& bus::written(trace, I2cReg::Cr2) == seq![cr2_address_write(reads[0], addr, n as u8)]
        },
        WritePhase::StartWrite(old) => {
            &&& trace.len() == 3
            &&& sent.len() == 0
            &&& reads.len() == 2
            &&& reads[1] == old
            &&& trace[0] == Access::Read(I2cReg::Cr2, reads[0])
            &&& trace[1] == Access::Write(I2cReg::Cr2, cr2_address_write(reads[0], addr, n as u8))
            &&& trace[2] == Access::Read(I2cReg::Cr2, old)
            &&& bus::written(trace, I2cReg::Cr2) == seq![cr2_address_write(reads[0], addr, n as u8)]
        },
        WritePhase::WaitTxis(i) => {
            &&& write_setup_done(addr, n, trace)
            &&& i < n
            &&& sent.len() == i
            &&& !nacked(trace)
            &&& !(trace.last() matches Access::Write(I2cReg::Txdr, _))
        },
        WritePhase::Send(i) => {
            &&& write_setup_done(addr, n, trace)
            &&& i < n
            &&& sent.len() == i
            &&& !nacked(trace)
            &&& trace.last() matches Access::Read(I2cReg::Isr, v) && bus::has_bits(v, ISR_TXIS)
        },
        WritePhase::CheckNack(i) => {
            &&& write_setup_done(addr, n, trace)
            &&& i < n
            &&& sent.len() == i + 1
            &&& !nacked(trace)
            &&& trace.last() == Access::Write(I2cReg::Txdr, sent.last())
        },
        WritePhase::Clear(ok) => {
            &&& write_setup_done(addr, n, trace)
            &&& (ok ==> sent.len() == n && !nacked(trace))
            &&& (!ok ==> sent.len() >= 1 && nacked(trace))
            &&& (!ok ==> refused_last(trace, 0))
        },
        WritePhase::Finished(ok) => {
            &&& write_setup_done(addr, n, trace)
            &&& (ok ==> sent.len() == n && !nacked(trace))
            &&& (!ok ==> sent.len() >= 1 && nacked(trace))
            &&& (!ok ==> refused_last(trace, 1))
            &&& trace.last() == Access::Write(I2cReg::Icr, ICR_CLEAR_STOP_NACK)
        },
    }
    &&& bus::written(trace, I2cReg::Icr) == (if phase is Finished {
        seq![ICR_CLEAR_STOP_NACK]
    } else {
        Seq::empty()
    })
}

/// The invariant holds at the start of a write.
pub proof fn lemma_write_init(addr: u8, data: Seq<u8>)
    requires
        data.len() <= usize::MAX,
    ensures
        write_inv(addr, data, WritePhase::SetupRead, Seq::empty()),
{
    assert(bus::words_of(data).take(0) =~= Seq::<u32>::empty());
}

/// Every step of a write keeps the invariant.
pub proof fn lemma_write_step(
    addr: u8,
    data: Seq<u8>,
    phase: WritePhase,
    trace: Seq<Access<I2cReg>>,
    value: u32,
)
    requires
        write_inv(addr, data, phase, trace),
    ensures
        write_inv(
            addr,
            data,
            write_next(data, phase, value),
            bus::record(trace, write_request(addr, data, phase), value),
        ),
{
    let req = write_request(addr, data, phase);
    if phase is Finished {
        return;
    }
    let a = match req {
        Request::Read(r) => Access::Read(r, value),
        Request::Write(r, w) => Access::Write(r, w),
        Request::Done(_) => Access::Read(I2cReg::Isr, 0),
    };
    let t = trace.push(a);
    assert(bus::record(trace, req, value) == t);
    bus::lemma_trace_push(trace, a, I2cReg::Txdr);
    bus::lemma_trace_push(trace, a, I2cReg::Cr2);
    bus::lemma_trace_push(trace, a, I2cReg::Icr);
    lemma_nacked_push(trace, a);
    lemma_sends_guarded_push(trace, a);
    let words = bus::words_of(data);
    match phase {
        WritePhase::SetupWrite(old) => {
            assert(trace =~= Seq::<Access<I2cReg>>::empty().push(Access::Read(I2cReg::Cr2, old)));
            bus::lemma_trace_push(Seq::empty(), Access::Read(I2cReg::Cr2, old), I2cReg::Cr2);
            bus::lemma_trace_push(Seq::empty(), Access::Read(I2cReg::Cr2, old), I2cReg::Txdr);
        },
        WritePhase::SetupRead => {
            assert(t =~= seq![Access::Read(I2cReg::Cr2, value)]);
        },
        WritePhase::StartWrite(old) => {
            let reads = bus::read_from(trace, I2cReg::Cr2);
            assert(bus::written(t, I2cReg::Cr2) =~= seq![
                cr2_address_write(reads[0], addr, data.len() as u8),
                with_bits(old, CR2_START),
            ]);
        },
        WritePhase::Send(i) => {
            assert(words.take(i + 1) =~= words.take(i as int).push(data[i as int] as u32));
        },
        _ => {},
    }
}

/// The phase and the trace of a write of `data` to the device at `addr`
/// after as many accesses as `values` holds, where the `k`-th value is what
/// the `k`-th access gave back (it is not looked at for a write).
pub open spec fn write_run(addr: u8, data: Seq<u8>, values: Seq<u32>) -> (WritePhase, Seq<Access<I2cReg>>)
    decreases values.len(),
{
    if values.len() == 0 {
        (WritePhase::SetupRead, Seq::empty())
    } else {
        let prev = write_run(addr, data, values.drop_last());
        (
            write_next(data, prev.0, values.last()),
            bus::record(prev.1, write_request(addr, data, prev.0), values.last()),
        )
    }
}

/// Whatever the registers give back, every state that a write reaches
/// keeps the invariant.
pub proof fn lemma_write_run(addr: u8, data: Seq<u8>, values: Seq<u32>)
    requires
        data.len() <= usize::MAX,
    ensures
        write_inv(addr, data, write_run(addr, data, values).0, write_run(addr, data, values).1),
    decreases values.len(),
{
    if values.len() == 0 {
        lemma_write_init(addr, data);
    } else {
        lemma_write_run(addr, data, values.drop_last());
        let prev = write_run(addr, data, values.drop_last());
        lemma_write_step(addr, data, prev.0, prev.1, values.last());
    }
}

/// What a finished write has done: it set CR2 up (address, count, write,
/// AUTOEND) and then set START, each time by a read-modify-write at the head
/// of the trace; it wrote TXDR only after ISR showed TXIS; the bytes that
/// went to TXDR are `data` in order, all of them when the result is
/// `Some(())`, and a leading part of them when it is `None`, where the last
/// of them was refused by the ISR read right after it, and that read is
/// followed only by the flag clear; the result is `Some(())` exactly when no byte was refused; and the
/// last access cleared the STOP and NACK flags, the only write to ICR.
pub proof fn lemma_write_finished(addr: u8, data: Seq<u8>, ok: bool, trace: Seq<Access<I2cReg>>)
    requires
        write_inv(addr, data, WritePhase::Finished(ok), trace),
    ensures
        write_setup_done(addr, data.len(), trace),
        sends_guarded(trace),
        ok ==> bus::written(trace, I2cReg::Txdr) == bus::words_of(data),
        !ok ==> {
            let sent = bus::written(trace, I2cReg::Txdr);
            &&& 1 <= sent.len() <= data.len()
            &&& sent == bus::words_of(data).take(sent.len() as int)
            &&& trace.len() >= 3
            &&& trace[trace.len() - 3] == Access::Write(I2cReg::Txdr, sent.last())
            &&& trace[trace.len() - 2] matches Access::Read(I2cReg::Isr, v) && bus::has_bits(v, ISR_NACKF)
        },
        ok == !nacked(trace),
        trace.last() == Access::Write(I2cReg::Icr, ICR_CLEAR_STOP_NACK),
        bus::written(trace, I2cReg::Icr) == seq![ICR_CLEAR_STOP_NACK],
{
    if ok {
        assert(bus::words_of(data).take(data.len() as int) =~= bus::words_of(data));
    }
}

/// Whatever the registers give back, a finished write gives `Some(())`
/// exactly when no byte it sent was refused by a NACK, and `None` exactly
/// when one was, for every address and every data.
pub proof fn lemma_write_result(addr: u8, data: Seq<u8>, values: Seq<u32>)
    requires
        data.len() <= usize::MAX,
        write_run(addr, data, values).0 is Finished,
    ensures
        write_request(addr, data, write_run(addr, data, values).0) == Request::<I2cReg, Option<()>>::Done(
            if nacked(write_run(addr, data, values).1) {
                None
            } else {
                Some(())
            },
        ),
        ({
            let sent = bus::written(write_run(addr, data, values).1, I2cReg::Txdr);
            &&& 1 <= sent.len() || data.len() == 0
            &&& sent.len() <= data.len()
            &&& !nacked(write_run(addr, data, values).1) ==> sent.len() == data.len()
            &&& forall|k: int| 0 <= k < sent.len() ==> #[trigger] sent[k] == data[k] as u32
        }),
{
    lemma_write_run(addr, data, values);
    let (p, t) = write_run(addr, data, values);
    let sent = bus::written(t, I2cReg::Txdr);
    if let WritePhase::Finished(ok) = p {
        lemma_write_finished(addr, data, ok, t);
    }
    assert forall|k: int| 0 <= k < sent.len() implies #[trigger] sent[k] == data[k] as u32 by {
        assert(sent[k] == bus::words_of(data).take(sent.len() as int)[k]);
    }
}

/// Whatever the registers give back, a finished write made two CR2 writes,
/// each from the CR2 value read just before it: the first holds the low
/// seven bits of the address in SADD1, the count of bytes (cut to a byte)
/// in NBYTES, RD_WRN clear and AUTOEND set, with every other bit as read; the
/// second sets START and leaves every other bit, NBYTES among them, as read.
pub proof fn lemma_write_cr2_fields(addr: u8, data: Seq<u8>, values: Seq<u32>)
    requires
        data.len() <= usize::MAX,
        write_run(addr, data, values).0 is Finished,
    ensures
        ({
            let trace = write_run(addr, data, values).1;
            let w = bus::written(trace, I2cReg::Cr2);
            let r = bus::read_from(trace, I2cReg::Cr2);
            let others = !(CR2_SADD1 | CR2_NBYTES | CR2_RD_WRN | CR2_AUTOEND);
            &&& w.len() == 2
            &&& r.len() == 2
            &&& field(w[0], 1, 0x7f) == (addr % 128) as u32
            &&& field(w[0], 16, 0xff) == (data.len() as u8) as u32
            &&& w[0] & CR2_RD_WRN == 0
            &&& w[0] & CR2_AUTOEND == CR2_AUTOEND
            &&& w[0] & others == r[0] & others
            &&& w[1] & CR2_START == CR2_START
            &&& w[1] & !CR2_START == r[1] & !CR2_START
        }),
{
    lemma_write_run(addr, data, values);
    let trace = write_run(addr, data, values).1;
    let r = bus::read_from(trace, I2cReg::Cr2);
    let n = data.len();
    lemma_cr2_address_write(r[0], addr, n as u8);
    lemma_with_bits(r[1], CR2_START);
}

/// A write of bytes to a device, as a state machine: the caller makes the
/// access that `request` asks for, hands what a read gave back to
/// `advance`, and goes on until `request` gives the result.
pub struct WriteData<'a> {
    addr: u8,
    data: &'a [u8],
    phase: WritePhase,
    trace: Ghost<Seq<Access<I2cReg>>>,
}

impl<'a> WriteData<'a> {
    /// The address of the device.
    pub closed spec fn addr(&self) -> u8 {
        self.addr
    }

    /// The bytes to write.
    pub closed spec fn data(&self) -> Seq<u8> {
        self.data@
    }

    /// Where the write stands.
    pub closed spec fn phase(&self) -> WritePhase {
        self.phase
    }

    /// The accesses made so far.
    pub closed spec fn trace(&self) -> Seq<Access<I2cReg>> {
        self.trace@
    }

    pub open spec fn wf(&self) -> bool {
        write_inv(self.addr(), self.data(), self.phase(), self.trace())
    }

    /// Starts a write of `data` to the device at address `addr`.
    pub fn new(addr: u8, data: &'a [u8]) -> (r: Self)
        ensures
            r.wf(),
            r.addr() == addr,
            r.data() == data@,
            r.phase() == WritePhase::SetupRead,
            r.trace() == Seq::<Access<I2cReg>>::empty(),
    {
        let n = data.len();
        proof {
            lemma_write_init(addr, data@);
        }
        WriteData { addr, data, phase: WritePhase::SetupRead, trace: Ghost(Seq::empty()) }
    }

    /// The access to make next, or the result once the write is over:
    /// `Some(())` when every byte went, `None` when the device refused one.
    pub fn request(&self) -> (r: Request<I2cReg, Option<()>>)
        requires
            self.wf(),
        ensures
            r == write_request(self.addr(), self.data(), self.phase()),
    {
        match self.phase {
            WritePhase::SetupRead => Request::Read(I2cReg::Cr2),
            WritePhase::SetupWrite(old) => Request::Write(
                I2cReg::Cr2,
                compute_cr2_address_write(old, self.addr, self.data.len() as u8),
            ),
            WritePhase::StartRead => Request::Read(I2cReg::Cr2),
            WritePhase::StartWrite(old) => Request::Write(I2cReg::Cr2, old | CR2_START),
            WritePhase::WaitTxis(_) => Request::Read(I2cReg::Isr),
            WritePhase::Send(i) => Request::Write(I2cReg::Txdr, self.data[i] as u32),
            WritePhase::CheckNack(_) => Request::Read(I2cReg::Isr),
            WritePhase::Clear(_) => Request::Write(I2cReg::Icr, ICR_CLEAR_STOP_NACK),
            WritePhase::Finished(ok) => Request::Done(if ok { Some(()) } else { None }),
        }
    }

    /// Records that the access asked for was made; `value` is what a read
    /// gave back (it is not looked at after a write).  Once the write is over
    /// nothing changes.
    pub fn advance(&mut self, value: u32)
        requires
            old(self).wf(),
        ensures
            final(self).wf(),
            final(self).addr() == old(self).addr(),
            final(self).data() == old(self).data(),
            final(self).phase() == write_next(old(self).data(), old(self).phase(), value),
            final(self).trace() == bus::record(
                old(self).trace(),
                write_request(old(self).addr(), old(self).data(), old(self).phase()),
                value,
            ),
    {
        proof {
            lemma_write_step(self.addr, self.data@, self.phase, self.trace@, value);
        }
        let ghost trace = bus::record(
            self.trace@,
            write_request(self.addr, self.data@, self.phase),
            value,
        );
        let n = self.data.len();
        let next = match self.phase {
            WritePhase::SetupRead => WritePhase::SetupWrite(value),
            WritePhase::SetupWrite(_) => WritePhase::StartRead,
            WritePhase::StartRead => WritePhase::StartWrite(value),
            WritePhase::StartWrite(_) => if n == 0 {
                WritePhase::Clear(true)
            } else {
                WritePhase::WaitTxis(0)
            },
            WritePhase::WaitTxis(i) => if test_bits(value, ISR_TXIS) {
                WritePhase::Send(i)
            } else {
                WritePhase::WaitTxis(i)
            },
            WritePhase::Send(i) => WritePhase::CheckNack(i),
            WritePhase::CheckNack(i) => if test_bits(value, ISR_NACKF) {
                WritePhase::Clear(false)
            } else if i + 1 < n {
                WritePhase::WaitTxis(i + 1)
            } else {
                WritePhase::Clear(true)
            },
            WritePhase::Clear(ok) => WritePhase::Finished(ok),
            WritePhase::Finished(ok) => WritePhase::Finished(ok),
        };
        self.phase = next;
        self.trace = Ghost(trace);
    }
}

// ---------------------------------------------------------------------------
// Reading bytes from a device
// ---------------------------------------------------------------------------

/// Where a read of bytes from a device stands.
#[derive(Debug, Clone, Copy, PartialEq, Eq, Structural)]
pub enum ReadPhase {
    /// Read CR2 to set up the one-byte register request.
    SetupRead,
    /// Write CR2 set up for the request.
    SetupWrite(u32),
    /// Read CR2 to set START.
    StartRead,
    /// Write CR2 with START set.
    StartWrite(u32),
    /// Read ISR until TXIS, NACKF, STOPF or TC shows.
    WaitAddressed,
    /// Write the register number to TXDR.
    SendRequest,
    /// Read ISR until TC shows.
    WaitTc,
    /// Read CR2 to set up the read.
    ReceiveSetupRead,
    /// Write CR2 set up for the read.
    ReceiveSetupWrite(u32),
    /// Read CR2 to set START again.
    RestartRead,
    /// Write CR2 with START set.
    RestartWrite(u32),
    /// Read CR2 to set AUTOEND.
    AutoendRead,
    /// Write CR2 with AUTOEND set.
    AutoendWrite(u32),
    /// Read ISR until RXNE shows, before byte `i`.
    WaitRxne(usize),
    /// Read byte `i` from RXDR.
    Receive(usize),
    /// Clear the STOP and NACK flags; the flag tells whether the read went.
    Clear(bool),
    /// Over; the flag tells whether the read went.
    Finished(bool),
}

/// The access that a read asks for in `phase`, or its result once it is
/// over: the device at `addr` is asked for register `req`, then `size` is the
/// count set in CR2 and `len` the number of bytes taken from RXDR.
pub open spec fn read_request(addr: u8, req: u8, size: u8, phase: ReadPhase) -> Request<I2cReg, Option<()>> {
    match phase {
        ReadPhase::SetupRead => Request::Read(I2cReg::Cr2),
        ReadPhase::SetupWrite(old) => Request::Write(I2cReg::Cr2, cr2_address_request(old, addr)),
        ReadPhase::StartRead => Request::Read(I2cReg::Cr2),
        ReadPhase::StartWrite(old) => Request::Write(I2cReg::Cr2, with_bits(old, CR2_START)),
        ReadPhase::WaitAddressed => Request::Read(I2cReg::Isr),
        ReadPhase::SendRequest => Request::Write(I2cReg::Txdr, req as u32),
        ReadPhase::WaitTc => Request::Read(I2cReg::Isr),
        ReadPhase::ReceiveSetupRead => Request::Read(I2cReg::Cr2),
        ReadPhase::ReceiveSetupWrite(old) => Request::Write(I2cReg::Cr2, cr2_address_read(old, addr, size)),
        ReadPhase::RestartRead => Request::Read(I2cReg::Cr2),
        ReadPhase::RestartWrite(old) => Request::Write(I2cReg::Cr2, with_bits(old, CR2_START)),
        ReadPhase::AutoendRead => Request::Read(I2cReg::Cr2),
        ReadPhase::AutoendWrite(old) => Request::Write(I2cReg::Cr2, with_bits(old, CR2_AUTOEND)),
        ReadPhase::WaitRxne(_) => Request::Read(I2cReg::Isr),
        ReadPhase::Receive(_) => Request::Read(I2cReg::Rxdr),
        ReadPhase::Clear(_) => Request::Write(I2cReg::Icr, ICR_CLEAR_STOP_NACK),
        ReadPhase::Finished(ok) => Request::Done(if ok { Some(()) } else { None }),
    }
}

/// The phase that follows `phase` once its access is made; `value` is what
/// a read gave back.
pub open spec fn read_next(len: nat, phase: ReadPhase, value: u32) -> ReadPhase {
    match phase {
        ReadPhase::SetupRead => ReadPhase::SetupWrite(value),
        ReadPhase::SetupWrite(_) => ReadPhase::StartRead,
        ReadPhase::StartRead => ReadPhase::StartWrite(value),
        ReadPhase::StartWrite(_) => ReadPhase::WaitAddressed,
        ReadPhase::WaitAddressed => if !bus::has_bits(value, ISR_ADDRESS_DONE) {
            ReadPhase::WaitAddressed
        } else if bus::has_bits(value, ISR_NACKF) {
            ReadPhase::Clear(false)
        } else {
            ReadPhase::SendRequest
        },
        ReadPhase::SendRequest => ReadPhase::WaitTc,
        ReadPhase::WaitTc => if bus::has_bits(value, ISR_TC) {
            ReadPhase::ReceiveSetupRead
        } else {
            ReadPhase::WaitTc
        },
        ReadPhase::ReceiveSetupRead => ReadPhase::ReceiveSetupWrite(value),
        ReadPhase::ReceiveSetupWrite(_) => ReadPhase::RestartRead,
        ReadPhase::RestartRead => ReadPhase::RestartWrite(value),
        ReadPhase::RestartWrite(_) => ReadPhase::AutoendRead,
        ReadPhase::AutoendRead => ReadPhase::AutoendWrite(value),
        ReadPhase::AutoendWrite(_) => if len == 0 {
            ReadPhase::Clear(true)
        } else {
            ReadPhase::WaitRxne(0)
        },
        ReadPhase::WaitRxne(i) => if bus::has_bits(value, ISR_RXNE) {
            ReadPhase::Receive(i)
        } else {
            ReadPhase::WaitRxne(i)
        },
        ReadPhase::Receive(i) => if i + 1 < len {
            ReadPhase::WaitRxne((i + 1) as usize)
        } else {
            ReadPhase::Clear(true)
        },
        ReadPhase::Clear(ok) => ReadPhase::Finished(ok),
        ReadPhase::Finished(ok) => ReadPhase::Finished(ok),
    }
}

/// The bytes received after the access of `phase`: a read of RXDR adds its
/// low byte.
pub open spec fn read_received(received: Seq<u8>, phase: ReadPhase, value: u32) -> Seq<u8> {
    if phase is Receive {
        received.push(value as u8)
    } else {
        received
    }
}

/// The `k`-th write to CR2 in a read, made from the value `old` that the
/// read before it gave: the request set-up, START, the read set-up, START
/// and AUTOEND.
pub open spec fn read_cr2_write(addr: u8, size: u8, k: int, old: u32) -> u32 {
    if k == 0 {
        cr2_address_request(old, addr)
    } else if k == 1 || k == 3 {
        with_bits(old, CR2_START)
    } else if k == 2 {
        cr2_address_read(old, addr, size)
    } else {
        with_bits(old, CR2_AUTOEND)
    }
}

/// The CR2 writes that go with the CR2 values `reads`, one for each.
pub open spec fn read_cr2_plan(addr: u8, size: u8, reads: Seq<u32>) -> Seq<u32> {
    Seq::new(reads.len(), |k: int| read_cr2_write(addr, size, k, reads[k]))
}

/// The low bytes of the words.
pub open spec fn bytes_of(words: Seq<u32>) -> Seq<u8> {
    words.map_values(|w: u32| w as u8)
}

/// If the access at `j` reads RXDR, the access just before it read ISR and
/// saw RXNE set.
pub open spec fn receive_guarded(trace: Seq<Access<I2cReg>>, j: int) -> bool {
    trace[j] matches Access::Read(I2cReg::Rxdr, _) ==> (j >= 1 && (trace[j - 1] matches Access::Read(
        I2cReg::Isr,
        v,
    ) && bus::has_bits(v, ISR_RXNE)))
}

/// RXDR is read only right after ISR showed RXNE.
pub open spec fn receives_guarded(trace: Seq<Access<I2cReg>>) -> bool {
    forall|j: int| 0 <= j < trace.len() ==> #[trigger] receive_guarded(trace, j)
}

proof fn lemma_receives_guarded_push(trace: Seq<Access<I2cReg>>, a: Access<I2cReg>)
    requires
        receives_guarded(trace),
        a matches Access::Read(I2cReg::Rxdr, _) ==> (trace.len() >= 1 && (trace.last() matches Access::Read(
            I2cReg::Isr,
            v,
        ) && bus::has_bits(v, ISR_RXNE))),
    ensures
        receives_guarded(trace.push(a)),
{
    let t = trace.push(a);
    assert forall|j: int| 0 <= j < t.len() implies #[trigger] receive_guarded(t, j) by {
        if j < trace.len() {
            assert(receive_guarded(trace, j));
        }
    }
}

/// How many CR2 reads and CR2 writes a read has made when it stands at
/// `phase`.
pub open spec fn read_cr2_counts(phase: ReadPhase) -> (nat, nat) {
    match phase {
        ReadPhase::SetupRead => (0, 0),
        ReadPhase::SetupWrite(_) => (1, 0),
        ReadPhase::StartRead => (1, 1),
        ReadPhase::StartWrite(_) => (2, 1),
        ReadPhase::ReceiveSetupWrite(_) => (3, 2),
        ReadPhase::RestartRead => (3, 3),
        ReadPhase::RestartWrite(_) => (4, 3),
        ReadPhase::AutoendRead => (4, 4),
        ReadPhase::AutoendWrite(_) => (5, 4),
        ReadPhase::WaitRxne(_) => (5, 5),
        ReadPhase::Receive(_) => (5, 5),
        ReadPhase::Clear(ok) => if ok { (5, 5) } else { (2, 2) },
        ReadPhase::Finished(ok) => if ok { (5, 5) } else { (2, 2) },
        _ => (2, 2),
    }
}

/// The value that a phase which writes CR2 was handed by the CR2 read just
/// before it.
pub open spec fn read_pending_cr2(phase: ReadPhase) -> Option<u32> {
    match phase {
        ReadPhase::SetupWrite(old) => Some(old),
        ReadPhase::StartWrite(old) => Some(old),
        ReadPhase::ReceiveSetupWrite(old) => Some(old),
        ReadPhase::RestartWrite(old) => Some(old),
        ReadPhase::AutoendWrite(old) => Some(old),
        _ => None,
    }
}

/// Whether the register request has gone to TXDR by `phase`.
pub open spec fn read_request_sent(phase: ReadPhase) -> bool {
    match phase {
        ReadPhase::SetupRead | ReadPhase::SetupWrite(_) | ReadPhase::StartRead | ReadPhase::StartWrite(_)
        | ReadPhase::WaitAddressed | ReadPhase::SendRequest => false,
        ReadPhase::Clear(ok) => ok,
        ReadPhase::Finished(ok) => ok,
        _ => true,
    }
}

/// Whether the access reads RXDR.
pub open spec fn is_rxdr_read(a: Access<I2cReg>) -> bool {
    a matches Access::Read(I2cReg::Rxdr, _)
}

/// No access before position `end` reads RXDR.
pub open spec fn no_rxdr_read_before(trace: Seq<Access<I2cReg>>, end: int) -> bool {
    forall|k: int| 0 <= k < end ==> !#[trigger] is_rxdr_read(trace[k])
}

/// At `j` the register request `req` went to TXDR, right after the ISR read
/// that ended the address wait without NACKF.
pub open spec fn request_sent_at(req: u8, trace: Seq<Access<I2cReg>>, j: int) -> bool {
    &&& 1 <= j < trace.len()
    &&& trace[j] == Access::Write(I2cReg::Txdr, req as u32)
    &&& trace[j - 1] matches Access::Read(I2cReg::Isr, v) && bus::has_bits(v, ISR_ADDRESS_DONE)
        && !bus::has_bits(v, ISR_NACKF)
}

/// The access at `k` is an ISR read that did not show TC.
pub open spec fn tc_poll(trace: Seq<Access<I2cReg>>, k: int) -> bool {
    trace[k] matches Access::Read(I2cReg::Isr, v) && !bus::has_bits(v, ISR_TC)
}

/// Every access strictly between `j` and `end` is an ISR read without TC.
pub open spec fn tc_polled(trace: Seq<Access<I2cReg>>, j: int, end: int) -> bool {
    forall|k: int| j < k < end ==> #[trigger] tc_poll(trace, k)
}

/// At `m` an ISR read showed TC, and between the TXDR write at `j` and it
/// there were only ISR reads without TC.
pub open spec fn tc_seen_at(trace: Seq<Access<I2cReg>>, j: int, m: int) -> bool {
    &&& 0 <= j < m < trace.len()
    &&& tc_polled(trace, j, m)
    &&& trace[m] matches Access::Read(I2cReg::Isr, v) && bus::has_bits(v, ISR_TC)
}

/// Whether the access reads CR2.
pub open spec fn is_cr2_read(a: Access<I2cReg>) -> bool {
    a matches Access::Read(I2cReg::Cr2, _)
}

/// At `k` CR2 is read, and at `k + 1` it is written with the `kind`-th CR2
/// write of a read (see `read_cr2_write`) made from the value read.
pub open spec fn cr2_modify_at(addr: u8, size: u8, trace: Seq<Access<I2cReg>>, k: int, kind: int) -> bool {
    match trace[k] {
        Access::Read(I2cReg::Cr2, v) => trace[k + 1] == Access::Write(
            I2cReg::Cr2,
            read_cr2_write(addr, size, kind, v),
        ),
        _ => false,
    }
}

/// The `c` accesses right after position `m` are the first `c` of the read
/// phase's CR2 read-modify-writes: the read set-up, START, AUTOEND.
pub open spec fn read_setup_after(addr: u8, size: u8, trace: Seq<Access<I2cReg>>, m: int, c: int) -> bool {
    &&& 0 <= m
    &&& m + c < trace.len()
    &&& c >= 1 ==> is_cr2_read(trace[m + 1])
    &&& c >= 2 ==> cr2_modify_at(addr, size, trace, m + 1, 2)
    &&& c >= 3 ==> is_cr2_read(trace[m + 3])
    &&& c >= 4 ==> cr2_modify_at(addr, size, trace, m + 3, 3)
    &&& c >= 5 ==> is_cr2_read(trace[m + 5])
    &&& c >= 6 ==> cr2_modify_at(addr, size, trace, m + 5, 4)
}

/// How many accesses of the read phase's CR2 set-up a read has made at
/// `phase`, for the phases between the TC read and the end of the set-up.
pub open spec fn read_setup_count(phase: ReadPhase) -> int {
    match phase {
        ReadPhase::ReceiveSetupWrite(_) => 1,
        ReadPhase::RestartRead => 2,
        ReadPhase::RestartWrite(_) => 3,
        ReadPhase::AutoendRead => 4,
        ReadPhase::AutoendWrite(_) => 5,
        _ => 0,
    }
}

/// The order of a read's accesses so far: the address wait ended without
/// NACKF, then the request went to TXDR, then ISR was polled until TC, then
/// the read set-up, START and AUTOEND went to CR2, and only then was RXDR
/// read.
pub open spec fn read_order(addr: u8, req: u8, size: u8, phase: ReadPhase, trace: Seq<Access<I2cReg>>) -> bool {
    match phase {
        ReadPhase::SendRequest => {
            &&& no_rxdr_read_before(trace, trace.len() as int)
            &&& trace.len() >= 1
            &&& trace.last() matches Access::Read(I2cReg::Isr, v) && bus::has_bits(v, ISR_ADDRESS_DONE)
                && !bus::has_bits(v, ISR_NACKF)
        },
        ReadPhase::WaitTc => {
            &&& no_rxdr_read_before(trace, trace.len() as int)
            &&& exists|j: int| #[trigger] request_sent_at(req, trace, j) && tc_polled(trace, j, trace.len() as int)
        },
        ReadPhase::ReceiveSetupRead | ReadPhase::ReceiveSetupWrite(_) | ReadPhase::RestartRead
        | ReadPhase::RestartWrite(_) | ReadPhase::AutoendRead | ReadPhase::AutoendWrite(_) => {
            let c = read_setup_count(phase);
            let m = trace.len() - 1 - c;
            &&& no_rxdr_read_before(trace, trace.len() as int)
            &&& read_setup_after(addr, size, trace, m, c)
            &&& exists|j: int| #[trigger] request_sent_at(req, trace, j) && tc_seen_at(trace, j, m)
        },
        ReadPhase::WaitRxne(_) | ReadPhase::Receive(_) | ReadPhase::Clear(true) | ReadPhase::Finished(true) => {
            exists|j: int, m: int|
                #![trigger request_sent_at(req, trace, j), tc_seen_at(trace, j, m)]
                request_sent_at(req, trace, j) && tc_seen_at(trace, j, m) && read_setup_after(
                    addr,
                    size,
                    trace,
                    m,
                    6,
                ) && no_rxdr_read_before(trace, m + 7)
        },
        ReadPhase::Clear(false) | ReadPhase::Finished(false) => true,
        _ => no_rxdr_read_before(trace, trace.len() as int),
    }
}

proof fn lemma_order_facts_push(
    addr: u8,
    req: u8,
    size: u8,
    trace: Seq<Access<I2cReg>>,
    a: Access<I2cReg>,
    j: int,
    m: int,
    c: int,
    e: int,
)
    ensures
        request_sent_at(req, trace, j) ==> request_sent_at(req, trace.push(a), j),
        tc_polled(trace, j, m) && 0 <= j && m <= trace.len() ==> tc_polled(trace.push(a), j, m),
        tc_seen_at(trace, j, m) ==> tc_seen_at(trace.push(a), j, m),
        read_setup_after(addr, size, trace, m, c) ==> read_setup_after(addr, size, trace.push(a), m, c),
        no_rxdr_read_before(trace, e) && e <= trace.len() ==> no_rxdr_read_before(trace.push(a), e),
{
    let t = trace.push(a);
    if tc_polled(trace, j, m) && 0 <= j && m <= trace.len() {
        assert forall|k: int| j < k < m implies #[trigger] tc_poll(t, k) by {
            assert(tc_poll(trace, k));
        }
    }
    if no_rxdr_read_before(trace, e) && e <= trace.len() {
        assert forall|k: int| 0 <= k < e implies !#[trigger] is_rxdr_read(t[k]) by {
            assert(!is_rxdr_read(trace[k]));
        }
    }
}

proof fn lemma_no_rxdr_extend(trace: Seq<Access<I2cReg>>, a: Access<I2cReg>)
    requires
        no_rxdr_read_before(trace, trace.len() as int),
        !is_rxdr_read(a),
    ensures
        no_rxdr_read_before(trace.push(a), trace.len() + 1int),
{
    let t = trace.push(a);
    assert forall|k: int| 0 <= k < trace.len() + 1 implies !#[trigger] is_rxdr_read(t[k]) by {
        if k < trace.len() {
            assert(!is_rxdr_read(trace[k]));
        }
    }
}

/// What holds of every state that a read reaches from its start.
pub open spec fn read_inv(
    addr: u8,
    req: u8,
    size: u8,
    len: nat,
    received: Seq<u8>,
    phase: ReadPhase,
    trace: Seq<Access<I2cReg>>,
) -> bool {
    let reads = bus::read_from(trace, I2cReg::Cr2);
    let writes = bus::written(trace, I2cReg::Cr2);
    let rx = bus::read_from(trace, I2cReg::Rxdr);
    let tx = bus::written(trace, I2cReg::Txdr);
    &&& len <= usize::MAX
    &&& received == bytes_of(rx)
    &&& reads.len() == read_cr2_counts(phase).0
    &&& writes.len() == read_cr2_counts(phase).1
    &&& writes == read_cr2_plan(addr, size, reads).take(writes.len() as int)
    &&& bus::writes_follow_reads(trace, I2cReg::Cr2)
    &&& receives_guarded(trace)
    &&& (match read_pending_cr2(phase) {
        Some(old) => trace.len() >= 1 && trace.last() == Access::Read(I2cReg::Cr2, old),
        None => true,
    })
    &&& tx == (if read_request_sent(phase) {
        seq![req as u32]
    } else {
        Seq::empty()
    })
    &&& match phase {
        ReadPhase::SetupRead => trace.len() == 0,
        ReadPhase::WaitRxne(i) => i < len && rx.len() == i,
        ReadPhase::Receive(i) => {
            &&& i < len
            &&& rx.len() == i
            &&& trace.last() matches Access::Read(I2cReg::Isr, v) && bus::has_bits(v, ISR_RXNE)
        },
        ReadPhase::Clear(ok) => {
            &&& ok ==> rx.len() == len
            &&& !ok ==> rx.len() == 0 && (trace.last() matches Access::Read(I2cReg::Isr, v) && bus::has_bits(
                v,
                ISR_NACKF,
            ))
        },
        ReadPhase::Finished(ok) => {
            &&& ok ==> rx.len() == len
            &&& !ok ==> rx.len() == 0 && trace.len() >= 2 && (trace[trace.len() - 2] matches Access::Read(
                I2cReg::Isr,
                v,
            ) && bus::has_bits(v, ISR_NACKF))
            &&& trace.last() == Access::Write(I2cReg::Icr, ICR_CLEAR_STOP_NACK)
        },
        _ => rx.len() == 0,
    }
    &&& bus::written(trace, I2cReg::Icr) == (if phase is Finished {
        seq![ICR_CLEAR_STOP_NACK]
    } else {
        Seq::empty()
    })
    &&& read_order(addr, req, size, phase, trace)
}

/// Every step of a read keeps the order of its accesses.
proof fn lemma_read_order_step(
    addr: u8,
    req: u8,
    size: u8,
    len: nat,
    received: Seq<u8>,
    phase: ReadPhase,
    trace: Seq<Access<I2cReg>>,
    value: u32,
)
    requires
        read_inv(addr, req, size, len, received, phase, trace),
    ensures
        read_order(
            addr,
            req,
            size,
            read_next(len, phase, value),
            bus::record(trace, read_request(addr, req, size, phase), value),
        ),
{
    let r = read_request(addr, req, size, phase);
    if phase is Finished {
        return;
    }
    let a = match r {
        Request::Read(reg) => Access::Read(reg, value),
        Request::Write(reg, w) => Access::Write(reg, w),
        Request::Done(_) => Access::Read(I2cReg::Isr, 0),
    };
    let t = trace.push(a);
    let n = trace.len() as int;
    let next = read_next(len, phase, value);
    assert(bus::record(trace, r, value) == t);
    match phase {
        ReadPhase::SetupRead | ReadPhase::SetupWrite(_) | ReadPhase::StartRead | ReadPhase::StartWrite(_)
        | ReadPhase::WaitAddressed => {
            lemma_no_rxdr_extend(trace, a);
        },
        ReadPhase::SendRequest => {
            assert(request_sent_at(req, t, n));
            assert forall|k: int| n < k < n + 1 implies #[trigger] tc_poll(t, k) by {}
            assert(request_sent_at(req, t, n) && tc_polled(t, n, n + 1));
            lemma_no_rxdr_extend(trace, a);
        },
        ReadPhase::WaitTc => {
            let j = choose|j: int| #[trigger] request_sent_at(req, trace, j) && tc_polled(trace, j, n);
            lemma_order_facts_push(addr, req, size, trace, a, j, n, 0, n);
            lemma_no_rxdr_extend(trace, a);
            if bus::has_bits(value, ISR_TC) {
                assert(tc_seen_at(t, j, n));
                assert(read_setup_after(addr, size, t, n, 0));
                assert(request_sent_at(req, t, j) && tc_seen_at(t, j, n));
            } else {
                assert forall|k: int| j < k < n + 1 implies #[trigger] tc_poll(t, k) by {
                    if k < n {
                        assert(tc_poll(trace, k));
                    }
                }
                assert(request_sent_at(req, t, j) && tc_polled(t, j, n + 1));
            }
        },
        ReadPhase::ReceiveSetupRead | ReadPhase::ReceiveSetupWrite(_) | ReadPhase::RestartRead
        | ReadPhase::RestartWrite(_) | ReadPhase::AutoendRead | ReadPhase::AutoendWrite(_) => {
            let c = read_setup_count(phase);
            let m = n - 1 - c;
            let j = choose|j: int| #[trigger] request_sent_at(req, trace, j) && tc_seen_at(trace, j, m);
            lemma_order_facts_push(addr, req, size, trace, a, j, m, c, n);
            lemma_no_rxdr_extend(trace, a);
            assert(t[m + c + 1] == a);
            assert(trace.len() >= 1 ==> t[n - 1] == trace.last());
            assert(read_setup_after(addr, size, t, m, c + 1));
            if phase is AutoendWrite {
                assert(request_sent_at(req, t, j) && tc_seen_at(t, j, m) && read_setup_after(
                    addr,
                    size,
                    t,
                    m,
                    6,
                ) && no_rxdr_read_before(t, m + 7));
            } else {
                assert(request_sent_at(req, t, j) && tc_seen_at(t, j, m));
            }
        },
        ReadPhase::WaitRxne(_) | ReadPhase::Receive(_) | ReadPhase::Clear(true) => {
            let (j, m) = choose|j: int, m: int|
                #![trigger request_sent_at(req, trace, j), tc_seen_at(trace, j, m)]
                request_sent_at(req, trace, j) && tc_seen_at(trace, j, m) && read_setup_after(
                    addr,
                    size,
                    trace,
                    m,
                    6,
                ) && no_rxdr_read_before(trace, m + 7);
            lemma_order_facts_push(addr, req, size, trace, a, j, m, 6, m + 7);
            assert(request_sent_at(req, t, j) && tc_seen_at(t, j, m) && read_setup_after(addr, size, t, m, 6)
                && no_rxdr_read_before(t, m + 7));
        },
        _ => {},
    }
}

/// The invariant holds at the start of a read.
pub proof fn lemma_read_init(addr: u8, req: u8, size: u8, len: nat)
    requires
        len <= usize::MAX,
    ensures
        read_inv(addr, req, size, len, Seq::empty(), ReadPhase::SetupRead, Seq::empty()),
{
    let t = Seq::<Access<I2cReg>>::empty();
    assert(bytes_of(Seq::empty()) =~= Seq::<u8>::empty());
    assert(read_cr2_plan(addr, size, Seq::empty()).take(0) =~= Seq::<u32>::empty());
    assert forall|j: int| 0 <= j < t.len() implies #[trigger] bus::modify_paired(t, I2cReg::Cr2, j) by {}
    assert forall|j: int| 0 <= j < t.len() implies #[trigger] receive_guarded(t, j) by {}
    assert forall|k: int| 0 <= k < 0 implies !#[trigger] is_rxdr_read(t[k]) by {}
}

/// Every step of a read keeps the invariant.
pub proof fn lemma_read_step(
    addr: u8,
    req: u8,
    size: u8,
    len: nat,
    received: Seq<u8>,
    phase: ReadPhase,
    trace: Seq<Access<I2cReg>>,
    value: u32,
)
    requires
        read_inv(addr, req, size, len, received, phase, trace),
    ensures
        read_inv(
            addr,
            req,
            size,
            len,
            read_received(received, phase, value),
            read_next(len, phase, value),
            bus::record(trace, read_request(addr, req, size, phase), value),
        ),
{
    let r = read_request(addr, req, size, phase);
    if phase is Finished {
        return;
    }
    let a = match r {
        Request::Read(reg) => Access::Read(reg, value),
        Request::Write(reg, w) => Access::Write(reg, w),
        Request::Done(_) => Access::Read(I2cReg::Isr, 0),
    };
    let t = trace.push(a);
    assert(bus::record(trace, r, value) == t);
    bus::lemma_trace_push(trace, a, I2cReg::Txdr);
    bus::lemma_trace_push(trace, a, I2cReg::Rxdr);
    bus::lemma_trace_push(trace, a, I2cReg::Cr2);
    bus::lemma_trace_push(trace, a, I2cReg::Icr);
    bus::lemma_writes_follow_reads_push(trace, a, I2cReg::Cr2);
    lemma_receives_guarded_push(trace, a);
    lemma_read_order_step(addr, req, size, len, received, phase, trace, value);
    let reads = bus::read_from(trace, I2cReg::Cr2);
    let writes = bus::written(trace, I2cReg::Cr2);
    let rx = bus::read_from(trace, I2cReg::Rxdr);
    let plan = read_cr2_plan(addr, size, reads);
    match a {
        Access::Read(I2cReg::Cr2, v) => {
            let plan2 = read_cr2_plan(addr, size, reads.push(v));
            assert(plan2.take(writes.len() as int) =~= plan.take(writes.len() as int));
        },
        Access::Write(I2cReg::Cr2, v) => {
            let k = writes.len() as int;
            assert(reads[k] == read_pending_cr2(phase)->0);
            assert(plan.take(k + 1) =~= plan.take(k).push(plan[k]));
        },
        Access::Read(I2cReg::Rxdr, v) => {
            assert(bytes_of(rx.push(v)) =~= bytes_of(rx).push(v as u8));
        },
        _ => {},
    }
}

/// The bytes received, the phase and the trace of a read after as many
/// accesses as `values` holds, where the `k`-th value is what the `k`-th
/// access gave back (it is not looked at for a write).
pub open spec fn read_run(addr: u8, req: u8, size: u8, len: nat, values: Seq<u32>) -> (
    Seq<u8>,
    ReadPhase,
    Seq<Access<I2cReg>>,
)
    decreases values.len(),
{
    if values.len() == 0 {
        (Seq::empty(), ReadPhase::SetupRead, Seq::empty())
    } else {
        let prev = read_run(addr, req, size, len, values.drop_last());
        (
            read_received(prev.0, prev.1, values.last()),
            read_next(len, prev.1, values.last()),
            bus::record(prev.2, read_request(addr, req, size, prev.1), values.last()),
        )
    }
}

/// Whatever the registers give back, every state that a read reaches
/// keeps the invariant.
pub proof fn lemma_read_run(addr: u8, req: u8, size: u8, len: nat, values: Seq<u32>)
    requires
        len <= usize::MAX,
    ensures
        ({
            let r = read_run(addr, req, size, len, values);
            read_inv(addr, req, size, len, r.0, r.1, r.2)
        }),
    decreases values.len(),
{
    if values.len() == 0 {
        lemma_read_init(addr, req, size, len);
    } else {
        lemma_read_run(addr, req, size, len, values.drop_last());
        let prev = read_run(addr, req, size, len, values.drop_last());
        lemma_read_step(addr, req, size, len, prev.0, prev.1, prev.2, values.last());
    }
}

/// What a finished read has done: its CR2 writes are, each by a
/// read-modify-write, the request set-up and START, then (when it went) the
/// read set-up, START and AUTOEND; when the result is `Some(())` it wrote
/// the register number `req` to TXDR once, read RXDR `len` times, each only
/// after ISR showed RXNE, and the bytes received are the low bytes of those
/// reads in order, and its accesses came in this order: the ISR read that
/// ended the address wait without NACKF, the TXDR write of `req`, ISR reads
/// without TC and then one with TC, the read-modify-writes of CR2 for the
/// read set-up, START and AUTOEND, and only after them the RXDR reads; when it is `None` the device refused the address, and
/// neither TXDR nor RXDR was touched; and the last access cleared the STOP
/// and NACK flags, the only write to ICR.
pub proof fn lemma_read_finished(
    addr: u8,
    req: u8,
    size: u8,
    len: nat,
    received: Seq<u8>,
    ok: bool,
    trace: Seq<Access<I2cReg>>,
)
    requires
        read_inv(addr, req, size, len, received, ReadPhase::Finished(ok), trace),
    ensures
        bus::writes_follow_reads(trace, I2cReg::Cr2),
        receives_guarded(trace),
        bus::read_from(trace, I2cReg::Cr2).len() == (if ok { 5nat } else { 2nat }),
        bus::written(trace, I2cReg::Cr2) == read_cr2_plan(addr, size, bus::read_from(trace, I2cReg::Cr2)),
        ok ==> {
            &&& received.len() == len
            &&& received == bytes_of(bus::read_from(trace, I2cReg::Rxdr))
            &&& bus::written(trace, I2cReg::Txdr) == seq![req as u32]
            &&& exists|j: int, m: int|
                #![trigger request_sent_at(req, trace, j), tc_seen_at(trace, j, m)]
                request_sent_at(req, trace, j) && tc_seen_at(trace, j, m) && read_setup_after(
                    addr,
                    size,
                    trace,
                    m,
                    6,
                ) && no_rxdr_read_before(trace, m + 7)
        },
        !ok ==> {
            &&& received.len() == 0
            &&& bus::read_from(trace, I2cReg::Rxdr).len() == 0
            &&& bus::written(trace, I2cReg::Txdr).len() == 0
            &&& trace.len() >= 2
            &&& trace[trace.len() - 2] matches Access::Read(I2cReg::Isr, v) && bus::has_bits(v, ISR_NACKF)
        },
        trace.last() == Access::Write(I2cReg::Icr, ICR_CLEAR_STOP_NACK),
        bus::written(trace, I2cReg::Icr) == seq![ICR_CLEAR_STOP_NACK],
{
    let reads = bus::read_from(trace, I2cReg::Cr2);
    let plan = read_cr2_plan(addr, size, reads);
    assert(plan.take(reads.len() as int) =~= plan);
}

/// Whatever the registers give back, a finished read gives `Some(())`
/// exactly when the register request went to TXDR, and then `len` bytes
/// were taken from RXDR, the bytes received being their low bytes in order; it gives `None` exactly
/// when nothing went to TXDR, the device having refused its address: the
/// ISR read just before the flag clear showed NACKF.  This holds for every
/// address, register and count.
pub proof fn lemma_read_result(addr: u8, req: u8, size: u8, len: nat, values: Seq<u32>)
    requires
        len <= usize::MAX,
        read_run(addr, req, size, len, values).1 is Finished,
    ensures
        ({
            let run = read_run(addr, req, size, len, values);
            let trace = run.2;
            let sent = bus::written(trace, I2cReg::Txdr);
            &&& read_request(addr, req, size, run.1) == Request::<I2cReg, Option<()>>::Done(
                if sent.len() == 1 {
                    Some(())
                } else {
                    None
                },
            )
            &&& sent.len() == 1 ==> {
                &&& sent[0] == req as u32
                &&& bus::read_from(trace, I2cReg::Rxdr).len() == len
                &&& run.0.len() == len
                &&& forall|k: int|
                    0 <= k < len ==> #[trigger] (run.0[k] as u32) == bus::read_from(trace, I2cReg::Rxdr)[k]
                        & 0xff
            }
            &&& sent.len() != 1 ==> {
                &&& sent.len() == 0
                &&& run.0.len() == 0
                &&& trace.len() >= 2
                &&& trace[trace.len() - 2] matches Access::Read(I2cReg::Isr, v) && bus::has_bits(v, ISR_NACKF)
            }
        }),
{
    lemma_read_run(addr, req, size, len, values);
    let run = read_run(addr, req, size, len, values);
    if let ReadPhase::Finished(ok) = run.1 {
        lemma_read_finished(addr, req, size, len, run.0, ok, run.2);
    }
    let rx = bus::read_from(run.2, I2cReg::Rxdr);
    assert forall|k: int| 0 <= k < run.0.len() implies #[trigger] (run.0[k] as u32) == rx[k] & 0xff by {
        let w = rx[k];
        assert(run.0[k] == w as u8);
        assert((w as u8) as u32 == w & 0xff) by (bit_vector);
    }
}

/// Whatever the registers give back, a finished read's CR2 writes, each made
/// from the CR2 value read just before it, are: the request set-up (SADD1
/// the low seven bits of the address, NBYTES one, RD_WRN and AUTOEND clear,
/// other bits as read), START with every other bit as read, and, when the
/// read went, the read set-up (SADD1 the address, NBYTES `size`, RD_WRN set,
/// other bits as read), START, and AUTOEND, each of the last two with every
/// other bit as read.
pub proof fn lemma_read_cr2_fields(addr: u8, req: u8, size: u8, len: nat, values: Seq<u32>)
    requires
        len <= usize::MAX,
        read_run(addr, req, size, len, values).1 is Finished,
    ensures
        ({
            let trace = read_run(addr, req, size, len, values).2;
            let w = bus::written(trace, I2cReg::Cr2);
            let r = bus::read_from(trace, I2cReg::Cr2);
            let req_others = !(CR2_SADD1 | CR2_NBYTES | CR2_RD_WRN | CR2_AUTOEND);
            let read_others = !(CR2_SADD1 | CR2_NBYTES | CR2_RD_WRN);
            &&& w.len() == r.len()
            &&& w.len() >= 2
            &&& field(w[0], 1, 0x7f) == (addr % 128) as u32
            &&& field(w[0], 16, 0xff) == 1
            &&& w[0] & (CR2_RD_WRN | CR2_AUTOEND) == 0
            &&& w[0] & req_others == r[0] & req_others
            &&& w[1] & CR2_START == CR2_START
            &&& w[1] & !CR2_START == r[1] & !CR2_START
            &&& w.len() > 2 ==> {
                &&& w.len() == 5
                &&& field(w[2], 1, 0x7f) == (addr % 128) as u32
                &&& field(w[2], 16, 0xff) == size as u32
                &&& w[2] & CR2_RD_WRN == CR2_RD_WRN
                &&& w[2] & read_others == r[2] & read_others
                &&& w[3] & CR2_START == CR2_START
                &&& w[3] & !CR2_START == r[3] & !CR2_START
                &&& w[4] & CR2_AUTOEND == CR2_AUTOEND
                &&& w[4] & !CR2_AUTOEND == r[4] & !CR2_AUTOEND
            }
        }),
{
    lemma_read_run(addr, req, size, len, values);
    let run = read_run(addr, req, size, len, values);
    let trace = run.2;
    let r = bus::read_from(trace, I2cReg::Cr2);
    if let ReadPhase::Finished(ok) = run.1 {
        lemma_read_finished(addr, req, size, len, run.0, ok, trace);
    }
    lemma_cr2_address_request(r[0], addr);
    lemma_with_bits(r[1], CR2_START);
    if r.len() > 2 {
        lemma_cr2_address_read(r[2], addr, size);
        lemma_with_bits(r[3], CR2_START);
        lemma_with_bits(r[4], CR2_AUTOEND);
    }
    assert(CR2_RD_WRN | CR2_AUTOEND == 0x200_0400u32) by (bit_vector);
    let w0 = bus::written(trace, I2cReg::Cr2)[0];
    assert(w0 & 0x400u32 == 0 && w0 & 0x200_0000u32 == 0 ==> w0 & 0x200_0400u32 == 0) by (bit_vector);
}

/// A read of bytes from a device, as a state machine: the device at `addr`
/// is asked for register `req`, and then `size` bytes are read from it, of
/// which `len` are taken from RXDR.  The caller makes the access that
/// `request` asks for, hands what a read gave back to `advance`, and goes on
/// until `request` gives the result; the bytes are then in `received`.
pub struct ReadData {
    addr: u8,
    req: u8,
    size: u8,
    len: usize,
    received: Vec<u8>,
    phase: ReadPhase,
    trace: Ghost<Seq<Access<I2cReg>>>,
}

impl ReadData {
    /// The address of the device.
    pub closed spec fn addr(&self) -> u8 {
        self.addr
    }

    /// The register asked for.
    pub closed spec fn req(&self) -> u8 {
        self.req
    }

    /// The count of bytes set in CR2 for the read.
    pub closed spec fn size(&self) -> u8 {
        self.size
    }

    /// The number of bytes to take from RXDR.
    pub closed spec fn data_len(&self) -> nat {
        self.len as nat
    }

    /// The bytes taken from RXDR so far.
    pub closed spec fn received(&self) -> Seq<u8> {
        self.received@
    }

    /// Where the read stands.
    pub closed spec fn phase(&self) -> ReadPhase {
        self.phase
    }

    /// The accesses made so far.
    pub closed spec fn trace(&self) -> Seq<Access<I2cReg>> {
        self.trace@
    }

    pub open spec fn wf(&self) -> bool {
        read_inv(
            self.addr(),
            self.req(),
            self.size(),
            self.data_len(),
            self.received(),
            self.phase(),
            self.trace(),
        )
    }

    /// Starts a read from the device at `addr` of register `req`, with `size`
    /// set as the count in CR2 and `len` bytes to take from RXDR.
    pub fn new(addr: u8, req: u8, size: u8, len: usize) -> (r: Self)
        ensures
            r.wf(),
            r.addr() == addr,
            r.req() == req,
            r.size() == size,
            r.data_len() == len,
            r.received() == Seq::<u8>::empty(),
            r.phase() == ReadPhase::SetupRead,
            r.trace() == Seq::<Access<I2cReg>>::empty(),
    {
        proof {
            lemma_read_init(addr, req, size, len as nat);
        }
        ReadData {
            addr,
            req,
            size,
            len,
            received: Vec::new(),
            phase: ReadPhase::SetupRead,
            trace: Ghost(Seq::empty()),
        }
    }

    /// The access to make next, or the result once the read is over:
    /// `Some(())` when the bytes came, `None` when the device refused its
    /// address.
    pub fn request(&self) -> (r: Request<I2cReg, Option<()>>)
        requires
            self.wf(),
        ensures
            r == read_request(self.addr(), self.req(), self.size(), self.phase()),
    {
        match self.phase {
            ReadPhase::SetupRead => Request::Read(I2cReg::Cr2),
            ReadPhase::SetupWrite(old) => Request::Write(
                I2cReg::Cr2,
                compute_cr2_address_request(old, self.addr),
            ),
            ReadPhase::StartRead => Request::Read(I2cReg::Cr2),
            ReadPhase::StartWrite(old) => Request::Write(I2cReg::Cr2, old | CR2_START),
            ReadPhase::WaitAddressed => Request::Read(I2cReg::Isr),
            ReadPhase::SendRequest => Request::Write(I2cReg::Txdr, self.req as u32),
            ReadPhase::WaitTc => Request::Read(I2cReg::Isr),
            ReadPhase::ReceiveSetupRead => Request::Read(I2cReg::Cr2),
            ReadPhase::ReceiveSetupWrite(old) => Request::Write(
                I2cReg::Cr2,
                compute_cr2_address_read(old, self.addr, self.size),
            ),
            ReadPhase::RestartRead => Request::Read(I2cReg::Cr2),
            ReadPhase::RestartWrite(old) => Request::Write(I2cReg::Cr2, old | CR2_START),
            ReadPhase::AutoendRead => Request::Read(I2cReg::Cr2),
            ReadPhase::AutoendWrite(old) => Request::Write(I2cReg::Cr2, old | CR2_AUTOEND),
            ReadPhase::WaitRxne(_) => Request::Read(I2cReg::Isr),
            ReadPhase::Receive(_) => Request::Read(I2cReg::Rxdr),
            ReadPhase::Clear(_) => Request::Write(I2cReg::Icr, ICR_CLEAR_STOP_NACK),
            ReadPhase::Finished(ok) => Request::Done(if ok { Some(()) } else { None }),
        }
    }

    /// Records that the access asked for was made; `value` is what a read
    /// gave back (it is not looked at after a write).  Once the read is over
    /// nothing changes.
    pub fn advance(&mut self, value: u32)
        requires
            old(self).wf(),
        ensures
            final(self).wf(),
            final(self).addr() == old(self).addr(),
            final(self).req() == old(self).req(),
            final(self).size() == old(self).size(),
            final(self).data_len() == old(self).data_len(),
            final(self).received() == read_received(old(self).received(), old(self).phase(), value),
            final(self).phase() == read_next(old(self).data_len(), old(self).phase(), value),
            final(self).trace() == bus::record(
                old(self).trace(),
                read_request(old(self).addr(), old(self).req(), old(self).size(), old(self).phase()),
                value,
            ),
    {
        proof {
            lemma_read_step(
                self.addr,
                self.req,
                self.size,
                self.len as nat,
                self.received@,
                self.phase,
                self.trace@,
                value,
            );
        }
        let ghost trace = bus::record(
            self.trace@,
            read_request(self.addr, self.req, self.size, self.phase),
            value,
        );
        let n = self.len;
        let next = match self.phase {
            ReadPhase::SetupRead => ReadPhase::SetupWrite(value),
            ReadPhase::SetupWrite(_) => ReadPhase::StartRead,
            ReadPhase::StartRead => ReadPhase::StartWrite(value),
            ReadPhase::StartWrite(_) => ReadPhase::WaitAddressed,
            ReadPhase::WaitAddressed => if !test_bits(value, ISR_ADDRESS_DONE) {
                ReadPhase::WaitAddressed
            } else if test_bits(value, ISR_NACKF) {
                ReadPhase::Clear(false)
            } else {
                ReadPhase::SendRequest
            },
            ReadPhase::SendRequest => ReadPhase::WaitTc,
            ReadPhase::WaitTc => if test_bits(value, ISR_TC) {
                ReadPhase::ReceiveSetupRead
            } else {
                ReadPhase::WaitTc
            },
            ReadPhase::ReceiveSetupRead => ReadPhase::ReceiveSetupWrite(value),
            ReadPhase::ReceiveSetupWrite(_) => ReadPhase::RestartRead,
            ReadPhase::RestartRead => ReadPhase::RestartWrite(value),
            ReadPhase::RestartWrite(_) => ReadPhase::AutoendRead,
            ReadPhase::AutoendRead => ReadPhase::AutoendWrite(value),
            ReadPhase::AutoendWrite(_) => if n == 0 {
                ReadPhase::Clear(true)
            } else {
                ReadPhase::WaitRxne(0)
            },
            ReadPhase::WaitRxne(i) => if test_bits(value, ISR_RXNE) {
                ReadPhase::Receive(i)
            } else {
                ReadPhase::WaitRxne(i)
            },
            ReadPhase::Receive(i) => {
                self.received.push(value as u8);
                if i + 1 < n {
                    ReadPhase::WaitRxne(i + 1)
                } else {
                    ReadPhase::Clear(true)
                }
            },
            ReadPhase::Clear(ok) => ReadPhase::Finished(ok),
            ReadPhase::Finished(ok) => ReadPhase::Finished(ok),
        };
        self.phase = next;
        self.trace = Ghost(trace);
    }

    /// Puts the bytes received into `data` once the read has gone; `data`
    /// must be as long as the count taken from RXDR.
    pub fn copy_received(&self, data: &mut [u8])
        requires
            self.wf(),
            self.phase() == ReadPhase::Finished(true),
            old(data)@.len() == self.data_len(),
        ensures
            final(data)@ == self.received(),
    {
        let n = data.len();
        for i in 0..n
            invariant
                n == data@.len(),
                n == self.received@.len(),
                forall|k: int| 0 <= k < i ==> data@[k] == self.received@[k],
        {
            data[i] = self.received[i];
        }
        assert(data@ =~= self.received@);
    }
}

} // verus!
