//! Reading a volume, which gives whole sectors only, at any place: what is read is kept
//! and handed out in pieces.

use vstd::prelude::*;

verus! {

/// How many bytes are read at once, at most.
pub const DEFAULT_BUF_SIZE: usize = 4194304;

/// The bytes that were read last, and where reading goes on.
pub struct AlignedReader {
    pub sector_size: usize,
    /// The bytes that were read last.
    pub buffer: Vec<u8>,
    /// Where the bytes that were read last begin.
    pub buf_start: u64,
    /// Where reading goes on.
    pub pos: u64,
    /// The size of the volume.
    pub file_size: u64,
}

/// A place to go on from.
#[derive(Clone, Copy, Debug, PartialEq, Eq, Structural)]
pub enum SeekTo {
    /// From the beginning.
    Start(u64),
    /// From the end.
    End(i64),
    /// From where reading is.
    Current(i64),
}

/// What reading gave.
#[derive(Clone, Copy, Debug, PartialEq, Eq, Structural)]
pub enum ReadOutcome {
    Got(usize),
    End,
    Interrupted,
    Failed,
}

/// What filling the buffer does next.
#[derive(Clone, Copy, Debug, PartialEq, Eq, Structural)]
pub enum FillStep {
    /// It reads on behind so many bytes.
    Read(usize),
    /// It ends with so many bytes.
    Done(usize),
    /// It ends with the error.
    Fail,
}

impl AlignedReader {
    /// Whether the bytes that were read last lie in the range of places.
    pub open spec fn wf(&self) -> bool {
        &&& self.sector_size > 0
        &&& self.buf_start + self.buffer@.len() <= u64::MAX
    }

    /// Whether the bytes that were read last are those of the volume.
    pub open spec fn holds(&self, volume: Seq<u8>) -> bool {
        &&& self.buf_start + self.buffer@.len() <= volume.len()
        &&& self.buffer@ == volume.subrange(
            self.buf_start as int,
            self.buf_start + self.buffer@.len(),
        )
    }

    /// Whether the next `len` bytes were read.
    pub open spec fn has(&self, len: int) -> bool {
        &&& self.buffer@.len() > 0
        &&& self.buf_start <= self.pos
        &&& self.pos + len <= self.buf_start + self.buffer@.len()
    }

    /// A reader of which nothing was read yet.
    pub fn new(sector_size: usize, file_size: u64) -> (r: Self)
        requires
            vstd::arithmetic::power2::is_pow2(sector_size as int),
        ensures
            r.wf(),
            r.sector_size == sector_size,
            r.file_size == file_size,
            r.pos == 0,
            r.buf_start == 0,
            r.buffer@.len() == 0,
    {
        proof {
            reveal(vstd::arithmetic::power2::is_pow2);
        }
        AlignedReader { sector_size, buffer: Vec::new(), buf_start: 0, pos: 0, file_size }
    }

    /// How many bytes are read at once: as many whole sectors as fit.
    pub fn capacity(&self) -> (r: usize)
        requires
            self.wf(),
        ensures
            r == (DEFAULT_BUF_SIZE / self.sector_size) * self.sector_size,
            r % self.sector_size == 0,
            r <= DEFAULT_BUF_SIZE,
    {
        proof {
            let (n, s) = (DEFAULT_BUF_SIZE as int, self.sector_size as int);
            vstd::arithmetic::div_mod::lemma_fundamental_div_mod(n, s);
            vstd::arithmetic::div_mod::lemma_mod_bound(n, s);
            vstd::arithmetic::div_mod::lemma_mod_multiples_basic(n / s, s);
            assert((n / s) * s == s * (n / s)) by (nonlinear_arith);
        }
        (DEFAULT_BUF_SIZE / self.sector_size) * self.sector_size
    }

    /// Where the buffer has to be filled from to read `len` bytes: from the beginning of
    /// the sector; nothing where they were read already.
    pub fn fill_from(&self, len: usize) -> (r: Option<u64>)
        requires
            self.wf(),
        ensures
            match r {
                Some(start) => !self.has(len as int) && start == self.pos - self.pos % (
                self.sector_size as u64),
                None => self.has(len as int),
            },
    {
        let valid: u64 = self.buffer.len() as u64;
        if valid > 0 && self.pos >= self.buf_start && self.pos <= self.buf_start + valid && len
            as u64 <= self.buf_start + valid - self.pos {
            return None;
        }
        proof {
            fill_is_aligned(self.pos, self.sector_size);
        }
        Some(self.pos - self.pos % (self.sector_size as u64))
    }

    /// What filling the buffer does next, where it has `total` bytes.
    pub fn fill_step(total: usize, capacity: usize, outcome: ReadOutcome) -> (r: FillStep)
        requires
            outcome matches ReadOutcome::Got(n) ==> total + n <= capacity,
        ensures
            r == (match outcome {
                ReadOutcome::Got(n) => if n > 0 && total + n < capacity {
                    FillStep::Read((total + n) as usize)
                } else {
                    FillStep::Done((total + n) as usize)
                },
                ReadOutcome::End => FillStep::Done(total),
                ReadOutcome::Interrupted => FillStep::Read(total),
                ReadOutcome::Failed => FillStep::Fail,
            }),
    {
        match outcome {
            ReadOutcome::Got(n) => if n > 0 && total + n < capacity {
                FillStep::Read(total + n)
            } else {
                FillStep::Done(total + n)
            },
            ReadOutcome::End => FillStep::Done(total),
            ReadOutcome::Interrupted => FillStep::Read(total),
            ReadOutcome::Failed => FillStep::Fail,
        }
    }

    /// Keeps the bytes that were read from `start` on.
    pub fn fill(&mut self, start: u64, bytes: Vec<u8>)
        requires
            old(self).wf(),
            start + bytes@.len() <= u64::MAX,
        ensures
            final(self).wf(),
            *final(self) == (AlignedReader { buffer: bytes, buf_start: start, ..*old(self) }),
    {
        self.buffer = bytes;
        self.buf_start = start;
    }

    /// The bytes that reading up to `len` bytes gives of those that were read last.
    pub open spec fn next_bytes(&self, len: int) -> Seq<u8> {
        let end = self.buf_start + self.buffer@.len();
        if self.pos >= end {
            seq![]
        } else {
            self.buffer@.subrange(
                self.pos - self.buf_start,
                crate::rows::least(self.pos + len, end) - self.buf_start,
            )
        }
    }

    /// Reads up to `len` bytes of those that were read last, and goes on behind them.
    pub fn read(&mut self, len: usize) -> (r: Vec<u8>)
        requires
            old(self).wf(),
            old(self).buf_start <= old(self).pos,
        ensures
            final(self).wf(),
            r@ == old(self).next_bytes(len as int),
            *final(self) == (AlignedReader {
                pos: (old(self).pos + r@.len()) as u64,
                ..*old(self)
            }),
    {
        let mut r: Vec<u8> = Vec::new();
        let end: u64 = self.buf_start + self.buffer.len() as u64;
        if len == 0 || self.pos >= end {
            assert(r@ =~= old(self).next_bytes(len as int));
            return r;
        }
        let offset: usize = (self.pos - self.buf_start) as usize;
        let available: usize = self.buffer.len() - offset;
        let count: usize = if len < available {
            len
        } else {
            available
        };
        let mut i: usize = 0;
        while i < count
            invariant
                i <= count,
                offset + count <= self.buffer.len(),
                r@ == self.buffer@.subrange(offset as int, offset + i),
            decreases count - i,
        {
            r.push(self.buffer[offset + i]);
            assert(r@ =~= self.buffer@.subrange(offset as int, offset + i + 1));
            i += 1;
        }
        self.pos = self.pos + count as u64;
        r
    }

    /// Where a place is.
    pub open spec fn place(&self, to: SeekTo) -> u64 {
        match to {
            SeekTo::Start(offset) => offset,
            SeekTo::End(offset) => (self.file_size as i64 + offset) as u64,
            SeekTo::Current(offset) => (self.pos as i64 + offset) as u64,
        }
    }

    /// Goes on from another place.
    pub fn seek(&mut self, to: SeekTo) -> (r: u64)
        requires
            match to {
                SeekTo::Start(_) => true,
                SeekTo::End(offset) => i64::MIN <= old(self).file_size as i64 + offset <= i64::MAX,
                SeekTo::Current(offset) => i64::MIN <= old(self).pos as i64 + offset <= i64::MAX,
            },
        ensures
            r == old(self).place(to),
            *final(self) == (AlignedReader { pos: r, ..*old(self) }),
    {
        let pos: u64 = match to {
            SeekTo::Start(offset) => offset,
            SeekTo::End(offset) => {
                let place: i64 = #[verifier::truncate] (self.file_size as i64) + offset;
                #[verifier::truncate] (place as u64)
            },
            SeekTo::Current(offset) => {
                let place: i64 = #[verifier::truncate] (self.pos as i64) + offset;
                #[verifier::truncate] (place as u64)
            },
        };
        self.pos = pos;
        pos
    }
}

/// What is read are the bytes of the volume from where reading was, and where at least one
/// was to be had, at least one is given.
pub proof fn reads_the_volume(reader: AlignedReader, volume: Seq<u8>, len: int)
    requires
        reader.wf(),
        reader.holds(volume),
        reader.buf_start <= reader.pos,
        len >= 0,
    ensures
        ({
            let r = reader.next_bytes(len);
            &&& r.len() <= len
            &&& reader.pos + r.len() <= volume.len() || r.len() == 0
            &&& forall|i: int| 0 <= i < r.len() ==> #[trigger] r[i] == volume[reader.pos + i]
            &&& reader.has(len) ==> r.len() == len
        }),
{
}

/// A buffer that is filled from where `fill_from` says begins with the sector that reading
/// is in.
pub proof fn fill_is_aligned(pos: u64, sector_size: usize)
    requires
        sector_size > 0,
    ensures
        (pos - pos % (sector_size as u64)) % (sector_size as int) == 0,
        0 <= pos % (sector_size as u64) <= pos,
        pos - pos % (sector_size as u64) <= pos < pos - pos % (sector_size as u64) + sector_size,
{
    let (p, s) = (pos as int, sector_size as int);
    vstd::arithmetic::div_mod::lemma_fundamental_div_mod(p, s);
    vstd::arithmetic::div_mod::lemma_mod_bound(p, s);
    vstd::arithmetic::div_mod::lemma_mod_multiples_basic(p / s, s);
    assert((p / s) * s == s * (p / s)) by (nonlinear_arith);
    assert(s * (p / s) >= 0) by (nonlinear_arith)
        requires
            p >= 0,
            s > 0,
    ;
}

/// Places are counted in bytes: from the beginning, from the end of the volume, or from where
/// reading is.
pub proof fn seeks_are_counted(reader: AlignedReader, at: u64, offset: i64)
    requires
        reader.file_size <= i64::MAX,
        reader.pos <= i64::MAX,
    ensures
        reader.place(SeekTo::Start(at)) == at,
        0 <= reader.file_size + offset <= i64::MAX ==> reader.place(SeekTo::End(offset))
            == reader.file_size + offset,
        0 <= reader.pos + offset <= i64::MAX ==> reader.place(SeekTo::Current(offset)) == reader.pos
            + offset,
{
}

} // verus!
