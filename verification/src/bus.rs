//! Register accesses, the requests that the drivers make, and the traces of
//! accesses that a run of a driver leaves behind.

use vstd::prelude::*;

verus! {

/// What a driver asks its caller to do next.
#[derive(Debug, PartialEq, Eq)]
pub enum Request<R, T> {
    /// Read the register and hand the value back to the driver.
    Read(R),
    /// Write the value to the register.
    Write(R, u32),
    /// The operation is over; this is its result.
    Done(T),
}

/// One register access as it happened, with the value that it carried.
#[derive(Debug, PartialEq, Eq)]
pub enum Access<R> {
    Read(R, u32),
    Write(R, u32),
}

/// The trace after carrying out `request`, where `value` is what the
/// register gave back if the request was a read.  A finished operation makes
/// no access.
pub open spec fn record<R, T>(trace: Seq<Access<R>>, request: Request<R, T>, value: u32) -> Seq<Access<R>> {
    match request {
        Request::Read(reg) => trace.push(Access::Read(reg, value)),
        Request::Write(reg, written) => trace.push(Access::Write(reg, written)),
        Request::Done(_) => trace,
    }
}

/// Whether some bit of `mask` is set in `value`.
pub open spec fn has_bits(value: u32, mask: u32) -> bool {
    value & mask != 0
}

/// Tests whether some bit of `mask` is set in `value`.
pub fn test_bits(value: u32, mask: u32) -> (r: bool)
    ensures
        r == has_bits(value, mask),
{
    value & mask != 0
}

/// A flag counts as shown exactly when one of its bits is set in the
/// value: the other bits of the value do not matter, and for a one-bit flag
/// at position `k` it is the bit `k` of the value.
pub proof fn lemma_has_bits(value: u32, mask: u32, other: u32)
    by (bit_vector)
    ensures
        has_bits(value, mask) == has_bits(value & mask, mask),
        has_bits(value, mask) == has_bits(value | (other & !mask), mask),
        has_bits(value, mask) == has_bits(value & !(other & !mask), mask),
        has_bits(value, mask) == (value & mask != 0),
        mask != 0 ==> has_bits(mask, mask),
        !has_bits(0, mask),
{
}

/// For a one-bit flag at position `k`, the flag is shown exactly when bit
/// `k` of the value is one.
pub proof fn lemma_has_flag(value: u32, k: u32)
    by (bit_vector)
    requires
        k < 32,
    ensures
        has_bits(value, 1u32 << k) == ((value >> k) & 1u32 == 1u32),
{
}

/// Bytes as the words that a data register receives.
pub open spec fn words_of(bytes: Seq<u8>) -> Seq<u32> {
    bytes.map_values(|b: u8| b as u32)
}

/// The values written to `reg`, in the order of the trace.
pub open spec fn written<R>(trace: Seq<Access<R>>, reg: R) -> Seq<u32>
    decreases trace.len(),
{
    if trace.len() == 0 {
        Seq::empty()
    } else {
        let before = written(trace.drop_last(), reg);
        match trace.last() {
            Access::Write(r, v) => if r == reg { before.push(v) } else { before },
            Access::Read(_, _) => before,
        }
    }
}

/// The values read from `reg`, in the order of the trace.
pub open spec fn read_from<R>(trace: Seq<Access<R>>, reg: R) -> Seq<u32>
    decreases trace.len(),
{
    if trace.len() == 0 {
        Seq::empty()
    } else {
        let before = read_from(trace.drop_last(), reg);
        match trace.last() {
            Access::Read(r, v) => if r == reg { before.push(v) } else { before },
            Access::Write(_, _) => before,
        }
    }
}

/// Appending an access to a trace extends `written` and `read_from` by at
/// most that access.
pub proof fn lemma_trace_push<R>(trace: Seq<Access<R>>, access: Access<R>, reg: R)
    ensures
        written(trace.push(access), reg) == (match access {
            Access::Write(r, v) => if r == reg { written(trace, reg).push(v) } else { written(trace, reg) },
            Access::Read(_, _) => written(trace, reg),
        }),
        read_from(trace.push(access), reg) == (match access {
            Access::Read(r, v) => if r == reg { read_from(trace, reg).push(v) } else { read_from(trace, reg) },
            Access::Write(_, _) => read_from(trace, reg),
        }),
{
    assert(trace.push(access).drop_last() =~= trace);
}

/// The values written to `reg` over two traces, one after the other, are
/// those of the first and then those of the second.
pub proof fn lemma_written_append<R>(first: Seq<Access<R>>, second: Seq<Access<R>>, reg: R)
    ensures
        written(first + second, reg) == written(first, reg) + written(second, reg),
    decreases second.len(),
{
    if second.len() == 0 {
        assert(first + second =~= first);
        assert(written(first, reg) + written(second, reg) =~= written(first, reg));
    } else {
        let rest = second.drop_last();
        let a = second.last();
        lemma_written_append(first, rest, reg);
        assert(first + second =~= (first + rest).push(a));
        assert(second =~= rest.push(a));
        lemma_trace_push(first + rest, a, reg);
        lemma_trace_push(rest, a, reg);
        assert(written(first, reg) + written(rest, reg).push(a->Write_1) =~= (written(first, reg) + written(
            rest,
            reg,
        )).push(a->Write_1));
    }
}

/// The writes of the trace, in order.
pub open spec fn writes_of<R>(trace: Seq<Access<R>>) -> Seq<Access<R>>
    decreases trace.len(),
{
    if trace.len() == 0 {
        Seq::empty()
    } else {
        let before = writes_of(trace.drop_last());
        match trace.last() {
            Access::Write(_, _) => before.push(trace.last()),
            Access::Read(_, _) => before,
        }
    }
}

/// The writes of the trace to registers other than `reg`, in order.
pub open spec fn writes_except<R>(trace: Seq<Access<R>>, reg: R) -> Seq<Access<R>>
    decreases trace.len(),
{
    if trace.len() == 0 {
        Seq::empty()
    } else {
        let before = writes_except(trace.drop_last(), reg);
        match trace.last() {
            Access::Write(r, _) => if r == reg { before } else { before.push(trace.last()) },
            Access::Read(_, _) => before,
        }
    }
}

/// Appending an access to a trace extends `writes_of` and `writes_except`
/// by at most that access.
pub proof fn lemma_writes_push<R>(trace: Seq<Access<R>>, access: Access<R>, reg: R)
    ensures
        writes_of(trace.push(access)) == (match access {
            Access::Write(_, _) => writes_of(trace).push(access),
            Access::Read(_, _) => writes_of(trace),
        }),
        writes_except(trace.push(access), reg) == (match access {
            Access::Write(r, _) => if r == reg {
                writes_except(trace, reg)
            } else {
                writes_except(trace, reg).push(access)
            },
            Access::Read(_, _) => writes_except(trace, reg),
        }),
{
    assert(trace.push(access).drop_last() =~= trace);
}

/// If the access at `j` writes `reg`, the access just before it read
/// `reg`: the write is the second half of a read-modify-write.
pub open spec fn modify_paired<R>(trace: Seq<Access<R>>, reg: R, j: int) -> bool {
    (trace[j] matches Access::Write(r, _) && r == reg) ==> (j >= 1 && (trace[j - 1] matches Access::Read(
        r2,
        _,
    ) && r2 == reg))
}

/// Every write to `reg` in the trace directly follows a read of `reg`.
pub open spec fn writes_follow_reads<R>(trace: Seq<Access<R>>, reg: R) -> bool {
    forall|j: int| 0 <= j < trace.len() ==> #[trigger] modify_paired(trace, reg, j)
}

/// Appending an access keeps `writes_follow_reads` when a write to `reg`
/// comes right after a read of `reg`.
pub proof fn lemma_writes_follow_reads_push<R>(trace: Seq<Access<R>>, access: Access<R>, reg: R)
    requires
        writes_follow_reads(trace, reg),
        (access matches Access::Write(r, _) && r == reg) ==> (trace.len() >= 1 && (trace.last() matches Access::Read(
            r2,
            _,
        ) && r2 == reg)),
    ensures
        writes_follow_reads(trace.push(access), reg),
{
    let t = trace.push(access);
    assert forall|j: int| 0 <= j < t.len() implies #[trigger] modify_paired(t, reg, j) by {
        if j < trace.len() {
            assert(modify_paired(trace, reg, j));
        }
    }
}

} // verus!
