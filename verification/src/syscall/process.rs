//! The decision logic of the process management system calls.
//!
//! The page-table walks and the copies to and from user memory are done by
//! the caller; these functions decide what is read or written, where, and
//! whether the page allows it.
use vstd::prelude::*;

verus! {

/// Size of a page in bytes.
pub const PAGE_SIZE: usize = 4096;

/// Microseconds in a second.
pub const MICROS_PER_SEC: usize = 1_000_000;

/// Time as seconds and microseconds.
#[derive(Debug, Clone, Copy, PartialEq, Eq, Structural)]
pub struct TimeVal {
    pub sec: usize,
    pub usec: usize,
}

/// The flags of a page-table entry that the system calls read.
#[derive(Debug, Clone, Copy, PartialEq, Eq, Structural)]
pub struct PteFlags {
    pub valid: bool,
    pub readable: bool,
    pub writable: bool,
    pub user: bool,
}

/// What `sys_trace` asks the caller to do.
#[derive(Debug, Clone, Copy, PartialEq, Eq, Structural)]
pub enum TraceAction {
    /// Return -1.
    Fail,
    /// Return the byte at `offset` in the translated page.
    ReadByte { offset: usize },
    /// Store `value` at `offset` in the translated page and return 0.
    WriteByte { offset: usize, value: u8 },
    /// Return how many times system call `id` was made.
    SyscallCount { id: usize },
}

/// The user may read a page with these flags.
pub open spec fn user_readable(f: PteFlags) -> bool {
    f.valid && f.readable && f.user
}

/// The user may write a page with these flags.
pub open spec fn user_writable(f: PteFlags) -> bool {
    f.valid && f.writable && f.user
}

/// Whether the user may write to a page with these flags.
pub fn user_page_writable(f: PteFlags) -> (ok: bool)
    ensures
        ok == user_writable(f),
{
    f.writable && f.is_valid_user()
}

impl PteFlags {
    fn is_valid_user(&self) -> (ok: bool)
        ensures
            ok == (self.valid && self.user),
    {
        self.valid && self.user
    }
}

/// trace syscall. `pte` is the entry that maps the page holding address
/// `id`, if any. Request 0 reads the byte at `id`, request 1 writes the low
/// byte of `data` there (each only where the page is valid, user-accessible
/// and readable, resp. writable), request 2 asks for the count of system
/// call `id`; anything else fails.
pub fn sys_trace(trace_request: usize, id: usize, data: usize, pte: Option<PteFlags>) -> (a: TraceAction)
    ensures
        a == (if trace_request == 0 {
            match pte {
                Some(f) if user_readable(f) => TraceAction::ReadByte { offset: (id % PAGE_SIZE) as usize },
                _ => TraceAction::Fail,
            }
        } else if trace_request == 1 {
            match pte {
                Some(f) if user_writable(f) => TraceAction::WriteByte {
                    offset: (id % PAGE_SIZE) as usize,
                    value: data as u8,
                },
                _ => TraceAction::Fail,
            }
        } else if trace_request == 2 {
            TraceAction::SyscallCount { id }
        } else {
            TraceAction::Fail
        }),
{
    match trace_request {
        0 => {
            match pte {
                Some(f) => {
                    if !f.readable || !f.is_valid_user() {
                        return TraceAction::Fail;
                    }
                    TraceAction::ReadByte { offset: id % PAGE_SIZE }
                },
                None => TraceAction::Fail,
            }
        },
        1 => {
            match pte {
                Some(f) => {
                    if !user_page_writable(f) {
                        return TraceAction::Fail;
                    }
                    TraceAction::WriteByte { offset: id % PAGE_SIZE, value: data as u8 }
                },
                None => TraceAction::Fail,
            }
        },
        2 => TraceAction::SyscallCount { id },
        _ => TraceAction::Fail,
    }
}

/// sbrk syscall: the old program break, or -1 when the break could not be
/// moved.
pub fn sys_sbrk(old_brk: Option<usize>) -> (r: isize)
    ensures
        r == match old_brk {
            Some(b) => b as isize,
            None => -1isize,
        },
{
    if let Some(b) = old_brk {
        b as isize
    } else {
        -1
    }
}

/// The time of day for a clock reading of `us` microseconds.
pub fn time_val_from_us(us: usize) -> (t: TimeVal)
    ensures
        t.sec == us / MICROS_PER_SEC,
        t.usec == us % MICROS_PER_SEC,
        t.usec < MICROS_PER_SEC,
        t.sec * MICROS_PER_SEC + t.usec == us,
{
    TimeVal { sec: us / MICROS_PER_SEC, usec: us % MICROS_PER_SEC }
}

/// A piece of a copy to user memory that stays within one page.
#[derive(Debug, Clone, Copy, PartialEq, Eq, Structural)]
pub struct Chunk {
    /// Virtual address the piece starts at.
    pub va: usize,
    /// Offset of `va` in its page.
    pub page_offset: usize,
    /// Offset of the piece in the data copied.
    pub src_offset: usize,
    /// Length of the piece.
    pub len: usize,
}

/// `c` is the piece of the copy to `[start, end)` that starts at `va`: it
/// runs to the end of the page or to `end`, whichever comes first.
pub open spec fn chunk_at(c: Chunk, start: usize, end: usize, va: int) -> bool {
    &&& c.va == va
    &&& c.page_offset == va % PAGE_SIZE as int
    &&& c.src_offset == va - start
    &&& c.len == if PAGE_SIZE - c.page_offset < end - va {
        PAGE_SIZE - c.page_offset
    } else {
        end - va
    }
}

/// The pieces of a copy to the user range `[start, end)`, in address order:
/// consecutive, each within one page and not empty, together covering the
/// whole range.
pub fn page_chunks(start: usize, end: usize) -> (cs: Vec<Chunk>)
    ensures
        start < end ==> cs@.len() > 0 && cs@[0].va == start,
        start >= end ==> cs@.len() == 0,
        forall|i: int| 0 <= i < cs@.len() ==> chunk_at(#[trigger] cs@[i], start, end, cs@[i].va as int),
        forall|i: int| 0 <= i < cs@.len() ==> #[trigger] cs@[i].len > 0,
        forall|i: int|
            0 <= i < cs@.len() - 1 ==> #[trigger] cs@[i + 1].va == cs@[i].va + cs@[i].len,
        cs@.len() > 0 ==> cs@.last().va + cs@.last().len == end,
{
    let mut cs: Vec<Chunk> = Vec::new();
    if start >= end {
        return cs;
    }
    let mut cur = start;
    while cur < end
        invariant
            start < end,
            start <= cur <= end,
            cs@.len() == 0 ==> cur == start,
            forall|i: int| 0 <= i < cs@.len() ==> chunk_at(#[trigger] cs@[i], start, end, cs@[i].va as int),
            forall|i: int| 0 <= i < cs@.len() ==> #[trigger] cs@[i].len > 0,
            forall|i: int|
                0 <= i < cs@.len() - 1 ==> #[trigger] cs@[i + 1].va == cs@[i].va + cs@[i].len,
            cs@.len() > 0 ==> cs@[0].va == start,
            cs@.len() > 0 ==> cs@.last().va + cs@.last().len == cur,
        decreases end - cur,
    {
        let off = cur % PAGE_SIZE;
        let len = if PAGE_SIZE - off < end - cur {
            PAGE_SIZE - off
        } else {
            end - cur
        };
        let c = Chunk { va: cur, page_offset: off, src_offset: cur - start, len };
        cs.push(c);
        cur = cur + len;
    }
    cs
}

} // verus!
