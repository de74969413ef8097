//! An in-memory, seekable output buffer for the muxer.

use vstd::prelude::*;

verus! {

/// Where a seek is measured from.
#[derive(Clone, Copy, Debug, PartialEq, Eq, Structural)]
pub enum SeekFrom {
    Start(u64),
    Current(i64),
    End(i64),
}

/// The buffer after writing `data` at `pos`: zero-filled up to `pos` when
/// it was shorter, then `data` over what was there.
pub open spec fn write_result(buffer: Seq<u8>, pos: nat, data: Seq<u8>) -> Seq<u8> {
    let end = pos + data.len();
    let len = if end > buffer.len() { end } else { buffer.len() as nat };
    Seq::new(len, |i: int| if pos <= i < end {
        data[i - pos]
    } else if i < buffer.len() {
        buffer[i]
    } else {
        0u8
    })
}

/// A byte buffer written at a movable position.
pub struct MemoryWriter {
    pub buffer: Vec<u8>,
    pub position: u64,
}

impl MemoryWriter {
    /// An empty buffer at position 0.
    pub fn new() -> (r: MemoryWriter)
        ensures
            r.buffer@.len() == 0,
            r.position == 0,
    {
        MemoryWriter { buffer: Vec::with_capacity(4096), position: 0 }
    }

    /// A copy of the bytes written.
    pub fn data(&self) -> (r: Vec<u8>)
        ensures
            r@ == self.buffer@,
    {
        let n = self.buffer.len();
        let mut out: Vec<u8> = Vec::new();
        let mut i: usize = 0;
        while i < n
            invariant
                n == self.buffer@.len(),
                i <= n,
                out@ == self.buffer@.subrange(0, i as int),
            decreases n - i,
        {
            out.push(self.buffer[i]);
            i += 1;
        }
        assert(self.buffer@.subrange(0, n as int) =~= self.buffer@);
        out
    }

    /// Whether nothing has been written.
    pub fn is_empty(&self) -> (r: bool)
        ensures
            r == (self.buffer@.len() == 0),
    {
        self.buffer.len() == 0
    }

    /// Forgets the bytes written and goes back to position 0.
    pub fn clear(&mut self)
        ensures
            final(self).buffer@.len() == 0,
            final(self).position == 0,
    {
        self.buffer.clear();
        self.position = 0;
    }

    /// Writes `buf` at the current position and moves past it; all of it is
    /// written.
    pub fn write(&mut self, buf: &[u8]) -> (r: usize)
        requires
            old(self).position + buf@.len() <= usize::MAX,
        ensures
            r == buf@.len(),
            final(self).buffer@ == write_result(old(self).buffer@, old(self).position as nat, buf@),
            final(self).position == old(self).position + buf@.len(),
    {
        let pos = self.position as usize;
        let n = buf.len();
        let end = pos + n;
        let ghost old_buf = self.buffer@;
        while self.buffer.len() < end
            invariant
                self.position == old(self).position,
                old_buf.len() <= self.buffer@.len() <= if end > old_buf.len() { end as nat } else { old_buf.len() },
                self.buffer@.subrange(0, old_buf.len() as int) == old_buf,
                forall|i: int| old_buf.len() <= i < self.buffer@.len() ==> self.buffer@[i] == 0u8,
            decreases end - self.buffer@.len(),
        {
            self.buffer.push(0u8);
            proof {
                assert forall|i: int| 0 <= i < old_buf.len() implies self.buffer@.subrange(0, old_buf.len() as int)[i] == old_buf[i] by {
                    assert(self.buffer@[i] == self.buffer@.drop_last()[i]);
                    assert(self.buffer@.drop_last().subrange(0, old_buf.len() as int)[i] == old_buf[i]);
                }
                assert(self.buffer@.subrange(0, old_buf.len() as int) =~= old_buf);
            }
        }
        let ghost filled = self.buffer@;
        let mut k: usize = 0;
        while k < n
            invariant
                n == buf@.len(),
                end == pos + n,
                pos == old(self).position,
                self.position == old(self).position,
                self.buffer@.len() == filled.len(),
                filled.len() >= end,
                k <= n,
                forall|i: int| 0 <= i < filled.len() ==> #[trigger] self.buffer@[i] == if pos <= i < pos + k {
                    buf@[i - pos]
                } else {
                    filled[i]
                },
            decreases n - k,
        {
            self.buffer.set(pos + k, buf[k]);
            k += 1;
        }
        self.position = self.position + n as u64;
        proof {
            assert forall|i: int| 0 <= i < old_buf.len() implies filled[i] == old_buf[i] by {
                assert(filled.subrange(0, old_buf.len() as int)[i] == old_buf[i]);
            }
            assert(self.buffer@ =~= write_result(old_buf, pos as nat, buf@));
        }
        n
    }

    /// Writes all of `buf`.
    pub fn write_all(&mut self, buf: &[u8])
        requires
            old(self).position + buf@.len() <= usize::MAX,
        ensures
            final(self).buffer@ == write_result(old(self).buffer@, old(self).position as nat, buf@),
            final(self).position == old(self).position + buf@.len(),
    {
        let _ = self.write(buf);
    }

    /// Nothing is held back: a no-op.
    pub fn flush(&mut self)
        ensures
            final(self).buffer@ == old(self).buffer@,
            final(self).position == old(self).position,
    {
    }

    /// Moves the position and returns it.  The current position is read as
    /// a signed number and a position before the start wraps, as the
    /// conversions between `u64` and `i64` do.
    pub fn seek(&mut self, pos: SeekFrom) -> (r: u64)
        requires
            match pos {
                SeekFrom::Start(_) => true,
                SeekFrom::Current(p) => i64::MIN <= as_signed(old(self).position) + p <= i64::MAX,
                SeekFrom::End(p) => old(self).buffer@.len() <= i64::MAX
                    && i64::MIN <= old(self).buffer@.len() + p <= i64::MAX,
            },
        ensures
            r == final(self).position,
            final(self).buffer@ == old(self).buffer@,
            final(self).position == match pos {
                SeekFrom::Start(p) => p as int,
                SeekFrom::Current(p) => as_unsigned(as_signed(old(self).position) + p),
                SeekFrom::End(p) => as_unsigned(old(self).buffer@.len() + p),
            },
    {
        let new_pos: u64 = match pos {
            SeekFrom::Start(p) => p,
            SeekFrom::Current(p) => {
                let x: i64 = signed_of(self.position) + p;
                unsigned_of(x)
            },
            SeekFrom::End(p) => {
                let len: u64 = self.buffer.len() as u64;
                let x: i64 = len as i64 + p;
                unsigned_of(x)
            },
        };
        self.position = new_pos;
        self.position
    }
}

/// The `i64` with the bits of `x`.
pub open spec fn as_signed(x: u64) -> int {
    if x <= i64::MAX {
        x as int
    } else {
        x - 0x1_0000_0000_0000_0000
    }
}

/// The `u64` with the bits of the `i64` `x`.
pub open spec fn as_unsigned(x: int) -> int {
    if x >= 0 {
        x
    } else {
        x + 0x1_0000_0000_0000_0000
    }
}

fn signed_of(x: u64) -> (r: i64)
    ensures
        r == as_signed(x),
{
    if x <= i64::MAX as u64 {
        x as i64
    } else {
        let low: u64 = x - 0x8000_0000_0000_0000;
        low as i64 + i64::MIN
    }
}

fn unsigned_of(x: i64) -> (r: u64)
    ensures
        r == as_unsigned(x as int),
{
    if x >= 0 {
        x as u64
    } else {
        let low: i64 = x - i64::MIN;
        low as u64 + 0x8000_0000_0000_0000
    }
}

impl Default for MemoryWriter {
    fn default() -> (r: Self)
        ensures
            r.buffer@.len() == 0,
            r.position == 0,
    {
        MemoryWriter::new()
    }
}

/// Two writes one after the other, from an empty buffer, leave their bytes
/// in order.
pub proof fn law_writes_append(a: Seq<u8>, b: Seq<u8>)
    ensures
        write_result(write_result(Seq::empty(), 0, a), a.len(), b) == a + b,
{
    assert(write_result(write_result(Seq::empty(), 0, a), a.len(), b) =~= a + b);
}

/// What was written at a position reads back from there.
pub proof fn law_read_back(buffer: Seq<u8>, pos: nat, data: Seq<u8>)
    ensures
        write_result(buffer, pos, data).subrange(pos as int, (pos + data.len()) as int) == data,
{
    assert(write_result(buffer, pos, data).subrange(pos as int, (pos + data.len()) as int) =~= data);
}

} // verus!
