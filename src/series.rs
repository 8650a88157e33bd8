//! The captured series: a preallocated run of points and a cursor that
//! marks how many of them hold samples.

use vstd::prelude::*;
use crate::waveform::{Error, RecieveData, TwoDiv, WAVeformCommands, DEVICE_MEMORY_POINTS};

verus! {

/// The point recorded for the `k`-th sample of a window: its index within
/// the window on x and the raw sample code on y. Physical units follow as
/// `x * increment.x + origin.x` and `(y - origin.y - reference.y) * increment.y`.
pub open spec fn raw_point(k: int, code: u8) -> TwoDiv<u32> {
    TwoDiv { x: k as u32, y: code as u32 }
}

/// The points once the first `size` codes of a window are recorded at `count`.
pub open spec fn after_chunk(
    points: Seq<TwoDiv<u32>>,
    count: int,
    size: int,
    codes: Seq<u8>,
) -> Seq<TwoDiv<u32>> {
    Seq::new(
        points.len(),
        |i: int|
            if count <= i < count + size {
                raw_point(i - count, codes[i - count])
            } else {
                points[i]
            },
    )
}

/// Points captured over a whole acquisition.
#[derive(Debug)]
pub struct CapturedSeries {
    pub points: Vec<TwoDiv<u32>>,
    pub count: u32,
}

impl CapturedSeries {
    /// The cursor lies within the preallocated points.
    pub open spec fn wf(&self) -> bool {
        self.count <= self.points@.len() <= u32::MAX
    }

    /// An empty series with room for `capacity` points.
    pub fn with_capacity(capacity: u32) -> (r: CapturedSeries)
        ensures
            r.wf(),
            r.count == 0,
            r.points@.len() == capacity,
            forall|i: int| 0 <= i < capacity ==> r.points@[i] == (TwoDiv { x: 0u32, y: 0u32 }),
    {
        let mut points: Vec<TwoDiv<u32>> = Vec::new();
        let mut i: u32 = 0;
        while i < capacity
            invariant
                i <= capacity,
                points@.len() == i,
                forall|j: int| 0 <= j < i ==> points@[j] == (TwoDiv { x: 0u32, y: 0u32 }),
            decreases capacity - i,
        {
            points.push(TwoDiv { x: 0, y: 0 });
            i = i + 1;
        }
        CapturedSeries { points, count: 0 }
    }

    /// An empty series with room for the instrument's whole memory.
    pub fn new() -> (r: CapturedSeries)
        ensures
            r.wf(),
            r.count == 0,
            r.points@.len() == DEVICE_MEMORY_POINTS,
            forall|i: int| 0 <= i < r.points@.len() ==> r.points@[i] == (TwoDiv { x: 0u32, y: 0u32 }),
    {
        CapturedSeries::with_capacity(DEVICE_MEMORY_POINTS)
    }

    /// Records the samples of the current window after the cursor and moves
    /// the cursor past them. Only byte samples are recorded; word and ASC
    /// buffers are accepted and leave the series as it was.
    pub fn record_chunk(&mut self, waveform: &WAVeformCommands) -> (r: Result<(), Error>)
        requires
            old(self).wf(),
        ensures
            final(self).wf(),
            match waveform.data {
                RecieveData::BYTE(codes) => {
                    let start = waveform.start_point as int;
                    let stop = waveform.stop_point as int;
                    let size = stop - start + 1;
                    if stop < start {
                        r matches Err(Error::InvalidWindow(a, b)) && a == waveform.start_point
                            && b == waveform.stop_point && *final(self) == *old(self)
                    } else if old(self).count + size > old(self).points@.len() {
                        r matches Err(Error::OutputBufferExhausted) && *final(self) == *old(self)
                    } else if size > codes@.len() {
                        r matches Err(Error::TransferSizeExceeded(t)) && t == waveform.max_transfer_size
                            && *final(self) == *old(self)
                    } else {
                        r is Ok && final(self).count == old(self).count + size
                            && final(self).points@ == after_chunk(
                            old(self).points@,
                            old(self).count as int,
                            size,
                            codes@,
                        )
                    }
                },
                _ => r is Ok && *final(self) == *old(self),
            },
    {
        let codes = match &waveform.data {
            RecieveData::BYTE(codes) => codes,
            _ => return Ok(()),
        };
        let start = waveform.start_point;
        let stop = waveform.stop_point;
        if stop < start {
            return Err(Error::InvalidWindow(start, stop));
        }
        let size64: u64 = (stop - start) as u64 + 1;
        if size64 > (self.points.len() - self.count as usize) as u64 {
            return Err(Error::OutputBufferExhausted);
        }
        if size64 > codes.len() as u64 {
            return Err(Error::TransferSizeExceeded(waveform.max_transfer_size));
        }
        let size: u32 = size64 as u32;
        let ghost before = self.points@;
        let base: usize = self.count as usize;
        let mut k: u32 = 0;
        while k < size
            invariant
                k <= size,
                size <= codes@.len(),
                base == old(self).count,
                base + size <= before.len(),
                self.points@.len() == before.len(),
                before == old(self).points@,
                self.count == old(self).count,
                before.len() <= u32::MAX,
                forall|i: int| 0 <= i < base + k ==> i < base ==> self.points@[i] == before[i],
                forall|i: int| base <= i < base + k ==> self.points@[i] == raw_point(i - base, codes@[i - base]),
                forall|i: int| base + k <= i < before.len() ==> self.points@[i] == before[i],
            decreases size - k,
        {
            self.points.set(base + k as usize, TwoDiv { x: k, y: codes[k as usize] as u32 });
            k = k + 1;
        }
        self.count = self.count + size;
        assert(self.points@ =~= after_chunk(before, base as int, size as int, codes@));
        Ok(())
    }
}

} // verus!
