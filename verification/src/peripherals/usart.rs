//! The USART1 peripheral: the flags of its registers, the driver that takes
//! a received character (and may echo it), and the driver that sends the
//! bytes of a string.

use vstd::prelude::*;
use vstd::string::StringSliceAdditionalSpecFns;
use crate::bus;
use crate::bus::{Access, Request, test_bits};

verus! {

/// ISR.ORE: an overrun happened.
pub const ISR_ORE: u32 = 0x8;
/// ISR.RXNE: the receive data register holds a character.
pub const ISR_RXNE: u32 = 0x20;
/// ISR.TXE: the transmit data register is empty.
pub const ISR_TXE: u32 = 0x80;
/// ICR.ORECF: clear the overrun flag.
pub const ICR_ORECF: u32 = 0x8;

/// The registers of USART1 that the drivers touch.
#[derive(Debug, Clone, Copy, PartialEq, Eq, Structural)]
pub enum UsartReg {
    Isr,
    Icr,
    Rdr,
    Tdr,
}

/// If the access at `j` writes TDR, it is the second half of a
/// read-modify-write of TDR, and the read of TDR came right after an ISR
/// read that showed TXE.
pub open spec fn tdr_guarded(trace: Seq<Access<UsartReg>>, j: int) -> bool {
    trace[j] matches Access::Write(UsartReg::Tdr, _) ==> {
        &&& j >= 2
        &&& trace[j - 1] matches Access::Read(UsartReg::Tdr, _)
        &&& trace[j - 2] matches Access::Read(UsartReg::Isr, v) && bus::has_bits(v, ISR_TXE)
    }
}

/// TDR is written only by a read-modify-write that starts right after ISR
/// showed TXE.
pub open spec fn tdr_writes_guarded(trace: Seq<Access<UsartReg>>) -> bool {
    forall|j: int| 0 <= j < trace.len() ==> #[trigger] tdr_guarded(trace, j)
}

/// The trace ends with an ISR read that showed TXE.
pub open spec fn ends_with_txe(trace: Seq<Access<UsartReg>>) -> bool {
    trace.len() >= 1 && (trace.last() matches Access::Read(UsartReg::Isr, v) && bus::has_bits(v, ISR_TXE))
}

/// The trace ends with an ISR read that showed TXE and then a TDR read.
pub open spec fn ends_with_txe_tdr(trace: Seq<Access<UsartReg>>) -> bool {
    &&& trace.len() >= 2
    &&& trace.last() matches Access::Read(UsartReg::Tdr, _)
    &&& trace[trace.len() - 2] matches Access::Read(UsartReg::Isr, v) && bus::has_bits(v, ISR_TXE)
}

proof fn lemma_tdr_guarded_push(trace: Seq<Access<UsartReg>>, a: Access<UsartReg>)
    requires
        tdr_writes_guarded(trace),
        a matches Access::Write(UsartReg::Tdr, _) ==> ends_with_txe_tdr(trace),
    ensures
        tdr_writes_guarded(trace.push(a)),
{
    let t = trace.push(a);
    assert forall|j: int| 0 <= j < t.len() implies #[trigger] tdr_guarded(t, j) by {
        if j < trace.len() {
            assert(tdr_guarded(trace, j));
        }
    }
}

proof fn lemma_empty_trace_guarded()
    ensures
        tdr_writes_guarded(Seq::<Access<UsartReg>>::empty()),
        bus::writes_follow_reads(Seq::<Access<UsartReg>>::empty(), UsartReg::Icr),
{
    let t = Seq::<Access<UsartReg>>::empty();
    assert forall|j: int| 0 <= j < t.len() implies #[trigger] tdr_guarded(t, j) by {}
    assert forall|j: int| 0 <= j < t.len() implies #[trigger] bus::modify_paired(t, UsartReg::Icr, j) by {}
}

// ---------------------------------------------------------------------------
// Taking a received character
// ---------------------------------------------------------------------------

/// Where the taking of a received character stands.
#[derive(Debug, Clone, Copy, PartialEq, Eq, Structural)]
pub enum ReadCharPhase {
    /// Read ISR to look for an overrun.
    CheckOverrun,
    /// Read ICR to clear the overrun flag.
    ClearOverrunRead,
    /// Write ICR with ORECF set.
    ClearOverrunWrite(u32),
    /// Read ISR to look for a received character.
    CheckReceived,
    /// Read the character from RDR.
    TakeChar,
    /// Read ISR until TXE shows, to echo the character.
    WaitTxe(u32),
    /// Read TDR to echo the character.
    EchoRead(u32),
    /// Write the character to TDR.
    EchoWrite(u32),
    /// Over, with the character.
    Finished(u8),
}

/// Where the taking goes once the character `c` is known (0 when none
/// came): it is echoed when `echo` is set and it is not 0.
pub open spec fn char_decided(echo: bool, c: u32) -> ReadCharPhase {
    if echo && c != 0 {
        ReadCharPhase::WaitTxe(c)
    } else {
        ReadCharPhase::Finished(c as u8)
    }
}

/// The access that the taking asks for in `phase`, or its result.
pub open spec fn read_char_request(phase: ReadCharPhase) -> Request<UsartReg, u8> {
    match phase {
        ReadCharPhase::CheckOverrun => Request::Read(UsartReg::Isr),
        ReadCharPhase::ClearOverrunRead => Request::Read(UsartReg::Icr),
        ReadCharPhase::ClearOverrunWrite(old) => Request::Write(UsartReg::Icr, old | ICR_ORECF),
        ReadCharPhase::CheckReceived => Request::Read(UsartReg::Isr),
        ReadCharPhase::TakeChar => Request::Read(UsartReg::Rdr),
        ReadCharPhase::WaitTxe(_) => Request::Read(UsartReg::Isr),
        ReadCharPhase::EchoRead(_) => Request::Read(UsartReg::Tdr),
        ReadCharPhase::EchoWrite(c) => Request::Write(UsartReg::Tdr, c),
        ReadCharPhase::Finished(c) => Request::Done(c),
    }
}

/// The phase that follows `phase` once its access is made; `value` is what
/// a read gave back.
pub open spec fn read_char_next(echo: bool, phase: ReadCharPhase, value: u32) -> ReadCharPhase {
    match phase {
        ReadCharPhase::CheckOverrun => if bus::has_bits(value, ISR_ORE) {
            ReadCharPhase::ClearOverrunRead
        } else {
            ReadCharPhase::CheckReceived
        },
        ReadCharPhase::ClearOverrunRead => ReadCharPhase::ClearOverrunWrite(value),
        ReadCharPhase::ClearOverrunWrite(_) => ReadCharPhase::TakeChar,
        ReadCharPhase::CheckReceived => if bus::has_bits(value, ISR_RXNE) {
            ReadCharPhase::TakeChar
        } else {
            char_decided(echo, 0)
        },
        ReadCharPhase::TakeChar => char_decided(echo, value),
        ReadCharPhase::WaitTxe(c) => if bus::has_bits(value, ISR_TXE) {
            ReadCharPhase::EchoRead(c)
        } else {
            ReadCharPhase::WaitTxe(c)
        },
        ReadCharPhase::EchoRead(c) => ReadCharPhase::EchoWrite(c),
        ReadCharPhase::EchoWrite(c) => ReadCharPhase::Finished(c as u8),
        ReadCharPhase::Finished(c) => ReadCharPhase::Finished(c),
    }
}

/// The character that the trace took from RDR, or 0 when it took none.
pub open spec fn char_taken(trace: Seq<Access<UsartReg>>) -> u32 {
    let rdr = bus::read_from(trace, UsartReg::Rdr);
    if rdr.len() == 1 {
        rdr[0]
    } else {
        0
    }
}

/// The head of a taking: ISR was read; on an overrun the flag was cleared
/// by a read-modify-write of ICR and RDR was read; else ISR was read again
/// and RDR was read exactly when that read showed RXNE.
pub open spec fn char_head_done(trace: Seq<Access<UsartReg>>) -> bool {
    let isr = bus::read_from(trace, UsartReg::Isr);
    let icr_reads = bus::read_from(trace, UsartReg::Icr);
    let icr_writes = bus::written(trace, UsartReg::Icr);
    let rdr = bus::read_from(trace, UsartReg::Rdr);
    &&& isr.len() >= 1
    &&& bus::has_bits(isr[0], ISR_ORE) ==> {
        &&& icr_reads.len() == 1
        &&& icr_writes == seq![icr_reads[0] | ICR_ORECF]
        &&& rdr.len() == 1
    }
    &&& !bus::has_bits(isr[0], ISR_ORE) ==> {
        &&& isr.len() >= 2
        &&& icr_reads.len() == 0
        &&& icr_writes.len() == 0
        &&& rdr.len() == (if bus::has_bits(isr[1], ISR_RXNE) { 1nat } else { 0nat })
    }
}

/// What holds of every state that a taking reaches from its start.
pub open spec fn read_char_inv(echo: bool, phase: ReadCharPhase, trace: Seq<Access<UsartReg>>) -> bool {
    let isr = bus::read_from(trace, UsartReg::Isr);
    let icr_reads = bus::read_from(trace, UsartReg::Icr);
    let icr_writes = bus::written(trace, UsartReg::Icr);
    let rdr = bus::read_from(trace, UsartReg::Rdr);
    let tdr = bus::written(trace, UsartReg::Tdr);
    &&& tdr_writes_guarded(trace)
    &&& bus::writes_follow_reads(trace, UsartReg::Icr)
    &&& match phase {
        ReadCharPhase::CheckOverrun => trace.len() == 0,
        ReadCharPhase::ClearOverrunRead => {
            &&& trace.len() == 1
            &&& isr.len() == 1
            &&& bus::has_bits(isr[0], ISR_ORE)
            &&& icr_reads.len() == 0
            &&& icr_writes.len() == 0
            &&& rdr.len() == 0
            &&& tdr.len() == 0
        },
        ReadCharPhase::ClearOverrunWrite(old) => {
            &&& trace.len() == 2
            &&& isr.len() == 1
            &&& bus::has_bits(isr[0], ISR_ORE)
            &&& icr_reads == seq![old]
            &&& trace.last() == Access::Read(UsartReg::Icr, old)
            &&& icr_writes.len() == 0
            &&& rdr.len() == 0
            &&& tdr.len() == 0
        },
        ReadCharPhase::CheckReceived => {
            &&& trace.len() == 1
            &&& isr.len() == 1
            &&& !bus::has_bits(isr[0], ISR_ORE)
            &&& icr_reads.len() == 0
            &&& icr_writes.len() == 0
            &&& rdr.len() == 0
            &&& tdr.len() == 0
        },
        ReadCharPhase::TakeChar => {
            &&& isr.len() >= 1
            &&& rdr.len() == 0
            &&& tdr.len() == 0
            &&& bus::has_bits(isr[0], ISR_ORE) ==> {
                &&& isr.len() == 1
                &&& icr_reads.len() == 1
                &&& icr_writes == seq![icr_reads[0] | ICR_ORECF]
            }
            &&& !bus::has_bits(isr[0], ISR_ORE) ==> {
                &&& isr.len() == 2
                &&& bus::has_bits(isr[1], ISR_RXNE)
                &&& icr_reads.len() == 0
                &&& icr_writes.len() == 0
            }
        },
        ReadCharPhase::WaitTxe(c) => {
            &&& char_head_done(trace)
            &&& echo && c != 0 && c == char_taken(trace)
            &&& tdr.len() == 0
        },
        ReadCharPhase::EchoRead(c) => {
            &&& char_head_done(trace)
            &&& echo && c != 0 && c == char_taken(trace)
            &&& tdr.len() == 0
            &&& ends_with_txe(trace)
        },
        ReadCharPhase::EchoWrite(c) => {
            &&& char_head_done(trace)
            &&& echo && c != 0 && c == char_taken(trace)
            &&& tdr.len() == 0
            &&& ends_with_txe_tdr(trace)
        },
        ReadCharPhase::Finished(r) => {
            &&& char_head_done(trace)
            &&& r == char_taken(trace) as u8
            &&& tdr == (if echo && char_taken(trace) != 0 {
                seq![char_taken(trace)]
            } else {
                Seq::empty()
            })
        },
    }
}

/// The invariant holds at the start of a taking.
pub proof fn lemma_read_char_init(echo: bool)
    ensures
        read_char_inv(echo, ReadCharPhase::CheckOverrun, Seq::empty()),
{
    lemma_empty_trace_guarded();
}

/// Every step of a taking keeps the invariant.
pub proof fn lemma_read_char_step(
    echo: bool,
    phase: ReadCharPhase,
    trace: Seq<Access<UsartReg>>,
    value: u32,
)
    requires
        read_char_inv(echo, phase, trace),
    ensures
        read_char_inv(
            echo,
            read_char_next(echo, phase, value),
            bus::record(trace, read_char_request(phase), value),
        ),
{
    let r = read_char_request(phase);
    if phase is Finished {
        return;
    }
    let a = match r {
        Request::Read(reg) => Access::Read(reg, value),
        Request::Write(reg, w) => Access::Write(reg, w),
        Request::Done(_) => Access::Read(UsartReg::Isr, 0),
    };
    let t = trace.push(a);
    assert(bus::record(trace, r, value) == t);
    bus::lemma_trace_push(trace, a, UsartReg::Isr);
    bus::lemma_trace_push(trace, a, UsartReg::Icr);
    bus::lemma_trace_push(trace, a, UsartReg::Rdr);
    bus::lemma_trace_push(trace, a, UsartReg::Tdr);
    bus::lemma_writes_follow_reads_push(trace, a, UsartReg::Icr);
    lemma_tdr_guarded_push(trace, a);
    if phase is CheckOverrun {
        assert(trace =~= Seq::<Access<UsartReg>>::empty());
    }
    let isr = bus::read_from(trace, UsartReg::Isr);
    let tdr = bus::written(trace, UsartReg::Tdr);
    match phase {
        ReadCharPhase::ClearOverrunRead => {
            assert(bus::read_from(t, UsartReg::Icr) =~= seq![value]);
        },
        ReadCharPhase::ClearOverrunWrite(old) => {
            assert(bus::written(t, UsartReg::Icr) =~= seq![old | ICR_ORECF]);
        },
        ReadCharPhase::CheckReceived | ReadCharPhase::TakeChar => {
            assert(bus::written(t, UsartReg::Tdr) =~= Seq::<u32>::empty());
        },
        ReadCharPhase::EchoWrite(c) => {
            assert(bus::written(t, UsartReg::Tdr) =~= seq![c]);
        },
        _ => {},
    }
}

/// The phase and the trace of a taking after as many accesses as `values`
/// holds, where the `k`-th value is what the `k`-th access gave back (it is
/// not looked at for a write).
pub open spec fn read_char_run(echo: bool, values: Seq<u32>) -> (ReadCharPhase, Seq<Access<UsartReg>>)
    decreases values.len(),
{
    if values.len() == 0 {
        (ReadCharPhase::CheckOverrun, Seq::empty())
    } else {
        let prev = read_char_run(echo, values.drop_last());
        (
            read_char_next(echo, prev.0, values.last()),
            bus::record(prev.1, read_char_request(prev.0), values.last()),
        )
    }
}

/// Whatever the registers give back, every state that a taking reaches
/// keeps the invariant.
pub proof fn lemma_read_char_run(echo: bool, values: Seq<u32>)
    ensures
        read_char_inv(echo, read_char_run(echo, values).0, read_char_run(echo, values).1),
    decreases values.len(),
{
    if values.len() == 0 {
        lemma_read_char_init(echo);
    } else {
        lemma_read_char_run(echo, values.drop_last());
        let prev = read_char_run(echo, values.drop_last());
        lemma_read_char_step(echo, prev.0, prev.1, values.last());
    }
}

/// What a finished taking has done: it read ISR; on an overrun it cleared
/// the flag by a read-modify-write of ICR (setting ORECF) and read RDR; else
/// it read ISR again and read RDR exactly when RXNE showed; its result is
/// the low byte of what RDR gave, or 0 when it was not read; and it wrote
/// that value back to TDR, once and only after ISR showed TXE, exactly when
/// `echo` is set and the value is not 0.
pub proof fn lemma_read_char_finished(echo: bool, r: u8, trace: Seq<Access<UsartReg>>)
    requires
        read_char_inv(echo, ReadCharPhase::Finished(r), trace),
    ensures
        char_head_done(trace),
        r == char_taken(trace) as u8,
        bus::read_from(trace, UsartReg::Rdr).len() == 0 ==> r == 0,
        bus::written(trace, UsartReg::Tdr) == (if echo && char_taken(trace) != 0 {
            seq![char_taken(trace)]
        } else {
            Seq::empty()
        }),
        tdr_writes_guarded(trace),
        bus::writes_follow_reads(trace, UsartReg::Icr),
{
}

/// Whatever the registers give back, a finished taking hands back the low
/// byte of what RDR gave, or 0 when RDR was not read, whether or not it
/// echoes; RDR is read at most once; and the word read from RDR is written
/// back to TDR, once, exactly when `echo` is set and that word is not 0.
pub proof fn lemma_read_char_result(echo: bool, values: Seq<u32>)
    requires
        read_char_run(echo, values).0 is Finished,
    ensures
        ({
            let (p, t) = read_char_run(echo, values);
            let rdr = bus::read_from(t, UsartReg::Rdr);
            &&& rdr.len() <= 1
            &&& read_char_request(p) matches Request::Done(r) && {
                &&& rdr.len() == 1 ==> r as u32 == rdr[0] & 0xff
                &&& rdr.len() == 0 ==> r == 0
            }
            &&& bus::written(t, UsartReg::Tdr) == (if echo && rdr.len() == 1 && rdr[0] != 0 {
                seq![rdr[0]]
            } else {
                Seq::<u32>::empty()
            })
        }),
{
    lemma_read_char_run(echo, values);
    let (p, t) = read_char_run(echo, values);
    let rdr = bus::read_from(t, UsartReg::Rdr);
    if rdr.len() == 1 {
        let w = rdr[0];
        assert((w as u8) as u32 == w & 0xff) by (bit_vector);
    }
}

/// How a taking that echoes stands to one that does not when both are
/// driven by the same values: until the one that does not echo is over they
/// are the same; after that, the echoing one has gone on from the same trace,
/// has written nothing since but to TDR, and has (or will have) the same
/// character; and the one that does not echo writes nothing to TDR.
pub open spec fn echo_related(
    pe: ReadCharPhase,
    te: Seq<Access<UsartReg>>,
    pn: ReadCharPhase,
    tn: Seq<Access<UsartReg>>,
) -> bool {
    &&& bus::writes_except(tn, UsartReg::Tdr) == bus::writes_of(tn)
    &&& match pn {
        ReadCharPhase::Finished(r) => {
            &&& tn.len() <= te.len()
            &&& te.take(tn.len() as int) == tn
            &&& bus::writes_except(te, UsartReg::Tdr) == bus::writes_except(tn, UsartReg::Tdr)
            &&& match pe {
                ReadCharPhase::Finished(r2) => r2 == r,
                ReadCharPhase::WaitTxe(c) => c as u8 == r,
                ReadCharPhase::EchoRead(c) => c as u8 == r,
                ReadCharPhase::EchoWrite(c) => c as u8 == r,
                _ => false,
            }
        },
        _ => pe == pn && te == tn,
    }
}

proof fn lemma_echo_related_run(values: Seq<u32>)
    ensures
        echo_related(
            read_char_run(true, values).0,
            read_char_run(true, values).1,
            read_char_run(false, values).0,
            read_char_run(false, values).1,
        ),
    decreases values.len(),
{
    if values.len() == 0 {
        return;
    }
    let prev = values.drop_last();
    let x = values.last();
    lemma_echo_related_run(prev);
    lemma_read_char_run(false, prev);
    let (pe, te) = read_char_run(true, prev);
    let (pn, tn) = read_char_run(false, prev);
    let te2 = read_char_run(true, values).1;
    let tn2 = read_char_run(false, values).1;
    if !(pn is Finished) {
        let a = match read_char_request(pn) {
            Request::Read(reg) => Access::Read(reg, x),
            Request::Write(reg, w) => Access::Write(reg, w),
            Request::Done(_) => Access::Read(UsartReg::Isr, 0),
        };
        assert(tn2 == tn.push(a));
        bus::lemma_writes_push(tn, a, UsartReg::Tdr);
        assert(tn2.take(tn2.len() as int) =~= tn2);
    } else {
        if !(pe is Finished) {
            let a = match read_char_request(pe) {
                Request::Read(reg) => Access::Read(reg, x),
                Request::Write(reg, w) => Access::Write(reg, w),
                Request::Done(_) => Access::Read(UsartReg::Isr, 0),
            };
            assert(te2 == te.push(a));
            bus::lemma_writes_push(te, a, UsartReg::Tdr);
            assert(te2.take(tn.len() as int) =~= te.take(tn.len() as int));
        }
    }
}

/// Echoing changes nothing but the echo: a taking that echoes and one that
/// does not, driven by the same register values, give the same character
/// once both are over; the one that does not echo writes nothing to TDR;
/// the trace of the one that echoes begins with the whole trace of the
/// other; and its writes, less those to TDR, are the writes of the other.
pub proof fn lemma_echo_same_char(values: Seq<u32>)
    requires
        read_char_run(false, values).0 is Finished,
        read_char_run(true, values).0 is Finished,
    ensures
        read_char_run(true, values).0 == read_char_run(false, values).0,
        bus::written(read_char_run(false, values).1, UsartReg::Tdr).len() == 0,
        read_char_run(false, values).1.len() <= read_char_run(true, values).1.len(),
        read_char_run(true, values).1.take(read_char_run(false, values).1.len() as int)
            == read_char_run(false, values).1,
        bus::writes_except(read_char_run(true, values).1, UsartReg::Tdr) == bus::writes_of(
            read_char_run(false, values).1,
        ),
{
    lemma_echo_related_run(values);
    lemma_read_char_run(false, values);
    let (pn, tn) = read_char_run(false, values);
    if let ReadCharPhase::Finished(r) = pn {
        lemma_read_char_finished(false, r, tn);
    }
}

/// The taking of a received character, as a state machine: the caller makes
/// the access that `request` asks for, hands what a read gave back to
/// `advance`, and goes on until `request` gives the character.
pub struct ReadChar {
    echo: bool,
    phase: ReadCharPhase,
    trace: Ghost<Seq<Access<UsartReg>>>,
}

impl ReadChar {
    /// Whether the character is echoed.
    pub closed spec fn echo(&self) -> bool {
        self.echo
    }

    /// Where the taking stands.
    pub closed spec fn phase(&self) -> ReadCharPhase {
        self.phase
    }

    /// The accesses made so far.
    pub closed spec fn trace(&self) -> Seq<Access<UsartReg>> {
        self.trace@
    }

    pub open spec fn wf(&self) -> bool {
        read_char_inv(self.echo(), self.phase(), self.trace())
    }

    /// Starts taking a received character, echoing it when `echo` is set.
    pub fn new(echo: bool) -> (r: Self)
        ensures
            r.wf(),
            r.echo() == echo,
            r.phase() == ReadCharPhase::CheckOverrun,
            r.trace() == Seq::<Access<UsartReg>>::empty(),
    {
        proof {
            lemma_read_char_init(echo);
        }
        ReadChar { echo, phase: ReadCharPhase::CheckOverrun, trace: Ghost(Seq::empty()) }
    }

    /// The access to make next, or the character once the taking is over.
    pub fn request(&self) -> (r: Request<UsartReg, u8>)
        requires
            self.wf(),
        ensures
            r == read_char_request(self.phase()),
    {
        match self.phase {
            ReadCharPhase::CheckOverrun => Request::Read(UsartReg::Isr),
            ReadCharPhase::ClearOverrunRead => Request::Read(UsartReg::Icr),
            ReadCharPhase::ClearOverrunWrite(old) => Request::Write(UsartReg::Icr, old | ICR_ORECF),
            ReadCharPhase::CheckReceived => Request::Read(UsartReg::Isr),
            ReadCharPhase::TakeChar => Request::Read(UsartReg::Rdr),
            ReadCharPhase::WaitTxe(_) => Request::Read(UsartReg::Isr),
            ReadCharPhase::EchoRead(_) => Request::Read(UsartReg::Tdr),
            ReadCharPhase::EchoWrite(c) => Request::Write(UsartReg::Tdr, c),
            ReadCharPhase::Finished(c) => Request::Done(c),
        }
    }

    /// Records that the access asked for was made; `value` is what a read
    /// gave back (it is not looked at after a write).  Once the taking is
    /// over nothing changes.
    pub fn advance(&mut self, value: u32)
        requires
            old(self).wf(),
        ensures
            final(self).wf(),
            final(self).echo() == old(self).echo(),
            final(self).phase() == read_char_next(old(self).echo(), old(self).phase(), value),
            final(self).trace() == bus::record(old(self).trace(), read_char_request(old(self).phase()), value),
    {
        proof {
            lemma_read_char_step(self.echo, self.phase, self.trace@, value);
        }
        let ghost trace = bus::record(self.trace@, read_char_request(self.phase), value);
        let next = match self.phase {
            ReadCharPhase::CheckOverrun => if test_bits(value, ISR_ORE) {
                ReadCharPhase::ClearOverrunRead
            } else {
                ReadCharPhase::CheckReceived
            },
            ReadCharPhase::ClearOverrunRead => ReadCharPhase::ClearOverrunWrite(value),
            ReadCharPhase::ClearOverrunWrite(_) => ReadCharPhase::TakeChar,
            ReadCharPhase::CheckReceived => if test_bits(value, ISR_RXNE) {
                ReadCharPhase::TakeChar
            } else {
                decide(self.echo, 0)
            },
            ReadCharPhase::TakeChar => decide(self.echo, value),
            ReadCharPhase::WaitTxe(c) => if test_bits(value, ISR_TXE) {
                ReadCharPhase::EchoRead(c)
            } else {
                ReadCharPhase::WaitTxe(c)
            },
            ReadCharPhase::EchoRead(c) => ReadCharPhase::EchoWrite(c),
            ReadCharPhase::EchoWrite(c) => ReadCharPhase::Finished(c as u8),
            ReadCharPhase::Finished(c) => ReadCharPhase::Finished(c),
        };
        self.phase = next;
        self.trace = Ghost(trace);
    }
}

fn decide(echo: bool, c: u32) -> (r: ReadCharPhase)
    ensures
        r == char_decided(echo, c),
{
    if echo && c != 0 {
        ReadCharPhase::WaitTxe(c)
    } else {
        ReadCharPhase::Finished(c as u8)
    }
}

// ---------------------------------------------------------------------------
// Sending a string
// ---------------------------------------------------------------------------

/// Where the sending of a string stands.
#[derive(Debug, Clone, Copy, PartialEq, Eq, Structural)]
pub enum SendPhase {
    /// Read ISR until TXE shows, before byte `i`.
    WaitTxe(usize),
    /// Read TDR to write byte `i`.
    ReadTdr(usize),
    /// Write byte `i` to TDR.
    WriteTdr(usize),
    /// Every byte went.
    Finished,
}

/// The phase in which a sending of `bytes` starts.
pub open spec fn send_start(bytes: Seq<u8>) -> SendPhase {
    if bytes.len() == 0 {
        SendPhase::Finished
    } else {
        SendPhase::WaitTxe(0)
    }
}

/// The access that a sending of `bytes` asks for in `phase`, or its result.
pub open spec fn send_request(bytes: Seq<u8>, phase: SendPhase) -> Request<UsartReg, ()> {
    match phase {
        SendPhase::WaitTxe(_) => Request::Read(UsartReg::Isr),
        SendPhase::ReadTdr(_) => Request::Read(UsartReg::Tdr),
        SendPhase::WriteTdr(i) => Request::Write(UsartReg::Tdr, bytes[i as int] as u32),
        SendPhase::Finished => Request::Done(()),
    }
}

/// The phase that follows `phase` once its access is made; `value` is what
/// a read gave back.
pub open spec fn send_next(bytes: Seq<u8>, phase: SendPhase, value: u32) -> SendPhase {
    match phase {
        SendPhase::WaitTxe(i) => if bus::has_bits(value, ISR_TXE) {
            SendPhase::ReadTdr(i)
        } else {
            SendPhase::WaitTxe(i)
        },
        SendPhase::ReadTdr(i) => SendPhase::WriteTdr(i),
        SendPhase::WriteTdr(i) => if i + 1 < bytes.len() {
            SendPhase::WaitTxe((i + 1) as usize)
        } else {
            SendPhase::Finished
        },
        SendPhase::Finished => SendPhase::Finished,
    }
}

/// What holds of every state that a sending of `bytes` reaches from its
/// start.
pub open spec fn send_inv(bytes: Seq<u8>, phase: SendPhase, trace: Seq<Access<UsartReg>>) -> bool {
    let sent = bus::written(trace, UsartReg::Tdr);
    &&& bytes.len() <= usize::MAX
    &&& tdr_writes_guarded(trace)
    &&& bus::written(trace, UsartReg::Icr).len() == 0
    &&& bus::read_from(trace, UsartReg::Rdr).len() == 0
    &&& match phase {
        SendPhase::WaitTxe(i) => i < bytes.len() && sent == bus::words_of(bytes).take(i as int),
        SendPhase::ReadTdr(i) => {
            &&& i < bytes.len()
            &&& sent == bus::words_of(bytes).take(i as int)
            &&& ends_with_txe(trace)
        },
        SendPhase::WriteTdr(i) => {
            &&& i < bytes.len()
            &&& sent == bus::words_of(bytes).take(i as int)
            &&& ends_with_txe_tdr(trace)
        },
        SendPhase::Finished => sent == bus::words_of(bytes),
    }
}

/// The invariant holds at the start of a sending.
pub proof fn lemma_send_init(bytes: Seq<u8>)
    requires
        bytes.len() <= usize::MAX,
    ensures
        send_inv(bytes, send_start(bytes), Seq::empty()),
{
    lemma_empty_trace_guarded();
    assert(bus::words_of(bytes).take(0) =~= Seq::<u32>::empty());
    assert(bus::words_of(bytes).len() == 0 ==> bus::words_of(bytes) =~= Seq::<u32>::empty());
}

/// Every step of a sending keeps the invariant.
pub proof fn lemma_send_step(bytes: Seq<u8>, phase: SendPhase, trace: Seq<Access<UsartReg>>, value: u32)
    requires
        send_inv(bytes, phase, trace),
    ensures
        send_inv(bytes, send_next(bytes, phase, value), bus::record(trace, send_request(bytes, phase), value)),
{
    let r = send_request(bytes, phase);
    if phase is Finished {
        return;
    }
    let a = match r {
        Request::Read(reg) => Access::Read(reg, value),
        Request::Write(reg, w) => Access::Write(reg, w),
        Request::Done(_) => Access::Read(UsartReg::Isr, 0),
    };
    let t = trace.push(a);
    assert(bus::record(trace, r, value) == t);
    bus::lemma_trace_push(trace, a, UsartReg::Icr);
    bus::lemma_trace_push(trace, a, UsartReg::Rdr);
    bus::lemma_trace_push(trace, a, UsartReg::Tdr);
    lemma_tdr_guarded_push(trace, a);
    let words = bus::words_of(bytes);
    if let SendPhase::WriteTdr(i) = phase {
        assert(words.take(i + 1) =~= words.take(i as int).push(bytes[i as int] as u32));
        assert(words.take(bytes.len() as int) =~= words);
    }
}

/// The phase and the trace of a sending of `bytes` after as many accesses
/// as `values` holds, where the `k`-th value is what the `k`-th access gave
/// back (it is not looked at for a write).
pub open spec fn send_run(bytes: Seq<u8>, values: Seq<u32>) -> (SendPhase, Seq<Access<UsartReg>>)
    decreases values.len(),
{
    if values.len() == 0 {
        (send_start(bytes), Seq::empty())
    } else {
        let prev = send_run(bytes, values.drop_last());
        (
            send_next(bytes, prev.0, values.last()),
            bus::record(prev.1, send_request(bytes, prev.0), values.last()),
        )
    }
}

/// Whatever the registers give back, every state that a sending reaches
/// keeps the invariant.
pub proof fn lemma_send_run(bytes: Seq<u8>, values: Seq<u32>)
    requires
        bytes.len() <= usize::MAX,
    ensures
        send_inv(bytes, send_run(bytes, values).0, send_run(bytes, values).1),
    decreases values.len(),
{
    if values.len() == 0 {
        lemma_send_init(bytes);
    } else {
        lemma_send_run(bytes, values.drop_last());
        let prev = send_run(bytes, values.drop_last());
        lemma_send_step(bytes, prev.0, prev.1, values.last());
    }
}

/// What a finished sending has done: the words written to TDR are the bytes
/// of the string in order, each by a read-modify-write of TDR that started
/// right after ISR showed TXE; nothing else was written but TDR, and RDR was
/// not read.
pub proof fn lemma_send_finished(bytes: Seq<u8>, trace: Seq<Access<UsartReg>>)
    requires
        send_inv(bytes, SendPhase::Finished, trace),
    ensures
        bus::written(trace, UsartReg::Tdr) == bus::words_of(bytes),
        tdr_writes_guarded(trace),
        bus::written(trace, UsartReg::Icr).len() == 0,
        bus::read_from(trace, UsartReg::Rdr).len() == 0,
{
}

/// Sending `a` and then `b` puts into TDR the same words as sending the
/// bytes of `a` followed by those of `b` at once, and each of the three
/// sendings, once over, gives `Done(())`.
pub proof fn lemma_send_concat(a: Seq<u8>, b: Seq<u8>, va: Seq<u32>, vb: Seq<u32>, vab: Seq<u32>)
    requires
        a.len() + b.len() <= usize::MAX,
        send_run(a, va).0 is Finished,
        send_run(b, vb).0 is Finished,
        send_run(a + b, vab).0 is Finished,
    ensures
        bus::written(send_run(a, va).1 + send_run(b, vb).1, UsartReg::Tdr) == bus::written(
            send_run(a + b, vab).1,
            UsartReg::Tdr,
        ),
        send_request(a, send_run(a, va).0) == Request::<UsartReg, ()>::Done(()),
        send_request(b, send_run(b, vb).0) == Request::<UsartReg, ()>::Done(()),
        send_request(a + b, send_run(a + b, vab).0) == Request::<UsartReg, ()>::Done(()),
{
    lemma_send_run(a, va);
    lemma_send_run(b, vb);
    lemma_send_run(a + b, vab);
    bus::lemma_written_append(send_run(a, va).1, send_run(b, vb).1, UsartReg::Tdr);
    assert(bus::words_of(a + b) =~= bus::words_of(a) + bus::words_of(b));
}

/// Whatever the registers give back, a finished sending wrote to TDR one
/// word per byte of the string, in order, each word the byte itself.
pub proof fn lemma_send_words(bytes: Seq<u8>, values: Seq<u32>)
    requires
        bytes.len() <= usize::MAX,
        send_run(bytes, values).0 is Finished,
    ensures
        bus::written(send_run(bytes, values).1, UsartReg::Tdr).len() == bytes.len(),
        forall|k: int|
            0 <= k < bytes.len() ==> #[trigger] bus::written(send_run(bytes, values).1, UsartReg::Tdr)[k]
                == bytes[k] as u32,
{
    lemma_send_run(bytes, values);
}

/// The sending of the bytes of a string, as a state machine: the caller
/// makes the access that `request` asks for, hands what a read gave back to
/// `advance`, and goes on until `request` says it is done.
pub struct SendStr<'a> {
    bytes: &'a [u8],
    phase: SendPhase,
    trace: Ghost<Seq<Access<UsartReg>>>,
}

impl<'a> SendStr<'a> {
    /// The bytes to send.
    pub closed spec fn bytes(&self) -> Seq<u8> {
        self.bytes@
    }

    /// Where the sending stands.
    pub closed spec fn phase(&self) -> SendPhase {
        self.phase
    }

    /// The accesses made so far.
    pub closed spec fn trace(&self) -> Seq<Access<UsartReg>> {
        self.trace@
    }

    pub open spec fn wf(&self) -> bool {
        send_inv(self.bytes(), self.phase(), self.trace())
    }

    /// Starts sending the bytes of `s`.
    pub fn new(s: &'a str) -> (r: Self)
        ensures
            r.wf(),
            r.bytes() == s.spec_bytes(),
            r.phase() == send_start(s.spec_bytes()),
            r.trace() == Seq::<Access<UsartReg>>::empty(),
    {
        let bytes = s.as_bytes();
        let n = bytes.len();
        proof {
            lemma_send_init(bytes@);
        }
        let phase = if n == 0 {
            SendPhase::Finished
        } else {
            SendPhase::WaitTxe(0)
        };
        SendStr { bytes, phase, trace: Ghost(Seq::empty()) }
    }

    /// The access to make next, or `Done(())` once every byte went.
    pub fn request(&self) -> (r: Request<UsartReg, ()>)
        requires
            self.wf(),
        ensures
            r == send_request(self.bytes(), self.phase()),
    {
        match self.phase {
            SendPhase::WaitTxe(_) => Request::Read(UsartReg::Isr),
            SendPhase::ReadTdr(_) => Request::Read(UsartReg::Tdr),
            SendPhase::WriteTdr(i) => Request::Write(UsartReg::Tdr, self.bytes[i] as u32),
            SendPhase::Finished => Request::Done(()),
        }
    }

    /// Records that the access asked for was made; `value` is what a read
    /// gave back (it is not looked at after a write).  Once the sending is
    /// over nothing changes.
    pub fn advance(&mut self, value: u32)
        requires
            old(self).wf(),
        ensures
            final(self).wf(),
            final(self).bytes() == old(self).bytes(),
            final(self).phase() == send_next(old(self).bytes(), old(self).phase(), value),
            final(self).trace() == bus::record(
                old(self).trace(),
                send_request(old(self).bytes(), old(self).phase()),
                value,
            ),
    {
        proof {
            lemma_send_step(self.bytes@, self.phase, self.trace@, value);
        }
        let ghost trace = bus::record(self.trace@, send_request(self.bytes@, self.phase), value);
        let n = self.bytes.len();
        let next = match self.phase {
            SendPhase::WaitTxe(i) => if test_bits(value, ISR_TXE) {
                SendPhase::ReadTdr(i)
            } else {
                SendPhase::WaitTxe(i)
            },
            SendPhase::ReadTdr(i) => SendPhase::WriteTdr(i),
            SendPhase::WriteTdr(i) => if i + 1 < n {
                SendPhase::WaitTxe(i + 1)
            } else {
                SendPhase::Finished
            },
            SendPhase::Finished => SendPhase::Finished,
        };
        self.phase = next;
        self.trace = Ghost(trace);
    }
}

} // verus!
