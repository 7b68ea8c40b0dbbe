//! Unaligned reads from a device that only serves whole sectors. The
//! reader keeps one buffer of whole sectors and a cursor; it says where
//! the device must be read, takes what was read, and hands out bytes from
//! the buffer. The device itself stays with the caller.

use vstd::prelude::*;

verus! {

pub const SECTOR_SIZE: usize = 512;

/// The bytes asked of the device at each fill: 16 sectors.
pub const BUFFER_SIZE: usize = 8192;

/// Where a seek goes.
#[derive(Clone, Copy, Debug)]
pub enum SeekTarget {
    /// This many bytes from the start.
    Start(u64),
    /// This many bytes from the cursor.
    Current(i64),
    /// This many bytes from the end of a device of the given length.
    End { offset: i64, device_len: u64 },
}

/// The position `delta` bytes from `base`: held at 0 where it would fall
/// below, nothing where it would pass `u64::MAX`.
pub open spec fn moved(base: u64, delta: i64) -> Option<u64> {
    let target = base + delta;
    if target < 0 {
        Some(0)
    } else if target > u64::MAX {
        None
    } else {
        Some(target as u64)
    }
}

pub open spec fn seek_position(cursor: u64, target: SeekTarget) -> Option<u64> {
    match target {
        SeekTarget::Start(n) => Some(n),
        SeekTarget::Current(delta) => moved(cursor, delta),
        SeekTarget::End { offset, device_len } => moved(device_len, offset),
    }
}

/// The sector boundary at or before `position`.
pub open spec fn sector_start(position: u64) -> u64 {
    (position - position % (SECTOR_SIZE as u64)) as u64
}

/// The cursor and the buffered part of the device.
pub struct SectorAlignedReader {
    position: u64,
    buffer: Vec<u8>,
    buffer_start: u64,
}

impl SectorAlignedReader {
    #[verifier::type_invariant]
    spec fn aligned(self) -> bool {
        &&& self.buffer_start % (SECTOR_SIZE as u64) == 0
        &&& self.buffer@.len() <= BUFFER_SIZE
        &&& self.buffer_start + self.buffer@.len() <= u64::MAX
    }

    /// The cursor: the position in the device of the next byte to read.
    pub closed spec fn cursor(&self) -> u64 {
        self.position
    }

    /// The position in the device of the first buffered byte.
    pub closed spec fn window_start(&self) -> u64 {
        self.buffer_start
    }

    /// The buffered bytes.
    pub closed spec fn window(&self) -> Seq<u8> {
        self.buffer@
    }

    /// Whether the cursor stands on a buffered byte.
    pub open spec fn covers_cursor(&self) -> bool {
        self.window_start() <= self.cursor() < self.window_start() + self.window().len()
    }

    /// The bytes that a read of `want` bytes hands out: those from the
    /// cursor to the end of the buffer, `want` at most; none where the
    /// cursor is outside the buffer.
    pub open spec fn readable(&self, want: usize) -> Seq<u8> {
        if self.covers_cursor() {
            let from = self.cursor() - self.window_start();
            let available = self.window().len() - from;
            let count = if want < available {
                want as int
            } else {
                available
            };
            self.window().subrange(from, from + count)
        } else {
            Seq::empty()
        }
    }

    /// The buffer holds what the device holds there.
    pub open spec fn mirrors(&self, device: Seq<u8>) -> bool {
        &&& self.window_start() + self.window().len() <= device.len()
        &&& self.window() == device.subrange(
            self.window_start() as int,
            self.window_start() + self.window().len(),
        )
    }

    /// A reader at the start of the device, with nothing buffered.
    pub fn new() -> (r: Self)
        ensures
            r.cursor() == 0,
            r.window_start() == 0,
            r.window() == Seq::<u8>::empty(),
    {
        let buffer: Vec<u8> = Vec::new();
        assert(0u64 % (SECTOR_SIZE as u64) == 0);
        SectorAlignedReader { position: 0, buffer, buffer_start: 0 }
    }

    pub fn position(&self) -> (r: u64)
        ensures
            r == self.cursor(),
    {
        self.position
    }

    /// Whether the device must be read before the next byte can be
    /// handed out.
    pub fn needs_fill(&self) -> (r: bool)
        ensures
            r == !self.covers_cursor(),
    {
        self.position < self.buffer_start || (self.position - self.buffer_start)
            >= self.buffer.len() as u64
    }

    /// Where the device must be read for the next fill: at the sector
    /// boundary at or before the cursor, for `BUFFER_SIZE` bytes. Both
    /// are multiples of the sector size.
    pub fn fill_position(&self) -> (r: u64)
        ensures
            r == sector_start(self.cursor()),
            r % (SECTOR_SIZE as u64) == 0,
            r <= self.cursor() < r + SECTOR_SIZE,
            BUFFER_SIZE % SECTOR_SIZE == 0,
    {
        self.position - self.position % (SECTOR_SIZE as u64)
    }

    /// Takes what the device gave for a read at `fill_position()`: the
    /// buffer now holds `data` from there. Fewer bytes than asked, or
    /// none, mean the device ends. No device reaches past `u64::MAX`.
    pub fn complete_fill(&mut self, data: &[u8])
        requires
            data@.len() <= BUFFER_SIZE,
            sector_start(old(self).cursor()) + data@.len() <= u64::MAX,
        ensures
            final(self).cursor() == old(self).cursor(),
            final(self).window_start() == sector_start(old(self).cursor()),
            final(self).window() == data@,
    {
        let start = self.fill_position();
        let mut buffer: Vec<u8> = Vec::new();
        let mut i: usize = 0;
        while i < data.len()
            invariant
                i <= data@.len(),
                buffer@ == data@.take(i as int),
            decreases data@.len() - i,
        {
            buffer.push(data[i]);
            assert(data@.take(i + 1) =~= data@.take(i as int).push(data@[i as int]));
            i += 1;
        }
        assert(data@.take(data@.len() as int) =~= data@);
        let position = self.position;
        *self = SectorAlignedReader { position, buffer, buffer_start: start };
    }

    /// Hands out up to `want` bytes from the cursor on, appended to `out`,
    /// and moves the cursor past them. It returns their number: 0 where
    /// the cursor stands outside the buffer, as it does at the end of
    /// the device after a fill.
    pub fn read(&mut self, out: &mut Vec<u8>, want: usize) -> (count: usize)
        ensures
            final(out)@ == old(out)@ + old(self).readable(want),
            count == old(self).readable(want).len(),
            count <= want,
            final(self).cursor() == old(self).cursor() + count,
            final(self).window_start() == old(self).window_start(),
            final(self).window() == old(self).window(),
    {
        proof {
            use_type_invariant(&*self);
        }
        if self.needs_fill() {
            assert(out@ =~= old(out)@ + Seq::<u8>::empty());
            return 0;
        }
        let from: usize = (self.position - self.buffer_start) as usize;
        let available: usize = self.buffer.len() - from;
        let count: usize = if want < available {
            want
        } else {
            available
        };
        let mut i: usize = 0;
        while i < count
            invariant
                i <= count,
                from + count <= self.buffer@.len() <= usize::MAX,
                out@ == old(out)@ + self.buffer@.subrange(from as int, from + i),
            decreases count - i,
        {
            out.push(self.buffer[from + i]);
            assert(self.buffer@.subrange(from as int, from + i + 1) =~= self.buffer@.subrange(
                from as int,
                from + i,
            ).push(self.buffer@[from + i]));
            i += 1;
        }
        let mut taken = SectorAlignedReader::new();
        std::mem::swap(self, &mut taken);
        let SectorAlignedReader { position, buffer, buffer_start } = taken;
        *self = SectorAlignedReader { position: position + count as u64, buffer, buffer_start };
        count
    }

    /// Moves the cursor. The buffer stays; the next read refills it where
    /// the cursor has left it. Nothing moves where the target would pass
    /// `u64::MAX`.
    pub fn seek(&mut self, target: SeekTarget) -> (r: Option<u64>)
        ensures
            r == seek_position(old(self).cursor(), target),
            final(self).cursor() == match r {
                Some(p) => p,
                None => old(self).cursor(),
            },
            final(self).window_start() == old(self).window_start(),
            final(self).window() == old(self).window(),
    {
        proof {
            use_type_invariant(&*self);
        }
        let found = match target {
            SeekTarget::Start(n) => Some(n),
            SeekTarget::Current(delta) => move_by(self.position, delta),
            SeekTarget::End { offset, device_len } => move_by(device_len, offset),
        };
        match found {
            Some(p) => {
                let mut taken = SectorAlignedReader::new();
                std::mem::swap(self, &mut taken);
                let SectorAlignedReader { position, buffer, buffer_start } = taken;
                *self = SectorAlignedReader { position: p, buffer, buffer_start };
            },
            None => {},
        }
        found
    }
}

fn move_by(base: u64, delta: i64) -> (r: Option<u64>)
    ensures
        r == moved(base, delta),
{
    let target: i128 = base as i128 + delta as i128;
    if target < 0 {
        Some(0)
    } else if target > u64::MAX as i128 {
        None
    } else {
        Some(target as u64)
    }
}

/// What a read hands out is what the device holds at the cursor, where
/// the buffer holds what the device holds.
pub proof fn lemma_read_is_device_range(reader: SectorAlignedReader, device: Seq<u8>, want: usize)
    requires
        reader.mirrors(device),
        reader.covers_cursor(),
    ensures
        reader.readable(want) == device.subrange(
            reader.cursor() as int,
            reader.cursor() + reader.readable(want).len(),
        ),
{
    assert(reader.readable(want) =~= device.subrange(
        reader.cursor() as int,
        reader.cursor() + reader.readable(want).len(),
    ));
}

} // verus!
