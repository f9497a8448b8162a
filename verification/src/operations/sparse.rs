//! Finding the data and the holes of a sparse file, from what seeking reports.

use crate::errno::ENXIO;
use crate::error::FxcpError;
use crate::operations::segment;
use vstd::prelude::*;

verus! {

/// A run of data or a hole.
#[derive(Debug, Clone, Copy, PartialEq, Eq, Structural)]
pub enum FileSegment {
    Data { offset: u64, len: u64 },
    Hole { offset: u64, len: u64 },
}

impl FileSegment {
    pub open spec fn start(self) -> int {
        match self {
            FileSegment::Data { offset, .. } => offset as int,
            FileSegment::Hole { offset, .. } => offset as int,
        }
    }

    pub open spec fn size(self) -> int {
        match self {
            FileSegment::Data { len, .. } => len as int,
            FileSegment::Hole { len, .. } => len as int,
        }
    }
}

/// Whether segments cover the range from `from` to `to` in order, without gap or
/// overlap, and none of them is empty.
pub open spec fn tiles(segments: Seq<FileSegment>, from: int, to: int) -> bool
    decreases segments.len(),
{
    if segments.len() == 0 {
        from == to
    } else {
        let last = segments.last();
        &&& last.size() > 0
        &&& last.start() + last.size() == to
        &&& tiles(segments.drop_last(), from, last.start())
    }
}

/// What to ask the file next.
#[derive(Debug, Clone, Copy, PartialEq, Eq, Structural)]
pub enum SeekStep {
    /// Where the next data starts, from this offset on.
    Data(u64),
    /// Where the next hole starts, from this offset on.
    Hole(u64),
    /// Nothing: the map is complete.
    Done,
    /// Nothing: seeking found a hole where the data starts.
    Stuck,
}

/// A map in the making: what is known of the range up to `current`.
#[derive(Debug)]
pub struct SparseMap {
    pub from: u64,
    pub end: u64,
    pub current: u64,
    pub segments: Vec<FileSegment>,
}

impl SparseMap {
    /// The segments found so far cover the range up to the current position.
    pub open spec fn wf(&self) -> bool {
        &&& self.from <= self.current <= self.end
        &&& tiles(self.segments@, self.from as int, self.current as int)
    }

    /// The map of the `length` bytes at `offset`, and what to ask first.
    pub fn new(offset: u64, length: u64) -> (r: (SparseMap, SeekStep))
        requires
            offset + length <= u64::MAX,
        ensures
            r.0.wf(),
            r.0.from == offset && r.0.current == offset && r.0.end == offset + length,
            r.0.segments@ == Seq::<FileSegment>::empty(),
            r.1 == (if length > 0 {
                SeekStep::Data(offset)
            } else {
                SeekStep::Done
            }),
    {
        let map = SparseMap { from: offset, end: offset + length, current: offset, segments: Vec::new() };
        if length > 0 {
            (map, SeekStep::Data(offset))
        } else {
            (map, SeekStep::Done)
        }
    }

    /// Takes note of where the next data starts. No more data, or data beyond
    /// the end, makes the rest a hole; any other failure is handed on, with what
    /// the system says of it.
    pub fn on_data(&mut self, found: Result<u64, i32>, said: &str) -> (res: Result<
        SeekStep,
        FxcpError,
    >)
        requires
            old(self).wf(),
            old(self).current < old(self).end,
        ensures
            final(self).wf(),
            final(self).from == old(self).from && final(self).end == old(self).end,
            match found {
                Err(e) => if e == ENXIO {
                    &&& res == Ok::<SeekStep, FxcpError>(SeekStep::Done)
                    &&& old(self).closes_with_hole(final(self))
                } else {
                    &&& res is Err && segment::is_os_error(res->Err_0, e as int, said@)
                    &&& final(self).segments@ == old(self).segments@
                    &&& final(self).current == old(self).current
                },
                Ok(d) => if d >= old(self).end {
                    &&& res == Ok::<SeekStep, FxcpError>(SeekStep::Done)
                    &&& old(self).closes_with_hole(final(self))
                } else if d > old(self).current {
                    &&& res == Ok::<SeekStep, FxcpError>(SeekStep::Hole(d))
                    &&& final(self).current == d
                    &&& final(self).segments@ == old(self).segments@.push(
                        FileSegment::Hole {
                            offset: old(self).current,
                            len: (d - old(self).current) as u64,
                        },
                    )
                } else {
                    &&& res == Ok::<SeekStep, FxcpError>(SeekStep::Hole(old(self).current))
                    &&& final(self).current == old(self).current
                    &&& final(self).segments@ == old(self).segments@
                },
            },
    {
        match found {
            Err(e) => {
                if e == ENXIO {
                    self.close();
                    Ok(SeekStep::Done)
                } else {
                    Err(segment::os_error(e, said))
                }
            },
            Ok(d) => {
                if d >= self.end {
                    self.close();
                    return Ok(SeekStep::Done);
                }
                if d > self.current {
                    let hole = FileSegment::Hole { offset: self.current, len: d - self.current };
                    let ghost before = self.segments@;
                    self.segments.push(hole);
                    assert(self.segments@.drop_last() =~= before);
                    self.current = d;
                }
                Ok(SeekStep::Hole(self.current))
            },
        }
    }

    /// Whether `after` is this map with the rest of the range as a hole.
    pub open spec fn closes_with_hole(&self, after: &SparseMap) -> bool {
        &&& after.current == after.end
        &&& after.segments@ == self.segments@.push(
            FileSegment::Hole { offset: self.current, len: (self.end - self.current) as u64 },
        )
    }

    fn close(&mut self)
        requires
            old(self).wf(),
            old(self).current < old(self).end,
        ensures
            final(self).wf(),
            final(self).from == old(self).from && final(self).end == old(self).end,
            old(self).closes_with_hole(final(self)),
    {
        let hole = FileSegment::Hole { offset: self.current, len: self.end - self.current };
        let ghost before = self.segments@;
        self.segments.push(hole);
        assert(self.segments@.drop_last() =~= before);
        self.current = self.end;
    }

    /// Takes note of where the hole behind the data starts; where seeking fails,
    /// the data goes on to the end.
    pub fn on_hole(&mut self, found: Option<u64>) -> (step: SeekStep)
        requires
            old(self).wf(),
            old(self).current < old(self).end,
            found is Some ==> found->0 >= old(self).current,
        ensures
            final(self).wf(),
            final(self).from == old(self).from && final(self).end == old(self).end,
            ({
                let hole = match found {
                    Some(h) => if h <= old(self).end {
                        h
                    } else {
                        old(self).end
                    },
                    None => old(self).end,
                };
                if hole > old(self).current {
                    &&& final(self).current == hole
                    &&& final(self).segments@ == old(self).segments@.push(
                        FileSegment::Data {
                            offset: old(self).current,
                            len: (hole - old(self).current) as u64,
                        },
                    )
                    &&& step == (if hole < old(self).end {
                        SeekStep::Data(hole)
                    } else {
                        SeekStep::Done
                    })
                } else {
                    &&& step == SeekStep::Stuck
                    &&& final(self).current == old(self).current
                    &&& final(self).segments@ == old(self).segments@
                }
            }),
    {
        let hole: u64 = match found {
            Some(h) => if h <= self.end {
                h
            } else {
                self.end
            },
            None => self.end,
        };
        if hole > self.current {
            let data = FileSegment::Data { offset: self.current, len: hole - self.current };
            let ghost before = self.segments@;
            self.segments.push(data);
            assert(self.segments@.drop_last() =~= before);
            self.current = hole;
            if hole < self.end {
                SeekStep::Data(hole)
            } else {
                SeekStep::Done
            }
        } else {
            SeekStep::Stuck
        }
    }
}

/// The bytes of data, or of holes, among segments.
pub open spec fn bytes_in(segments: Seq<FileSegment>, holes: bool) -> int
    decreases segments.len(),
{
    if segments.len() == 0 {
        0
    } else {
        bytes_in(segments.drop_last(), holes) + (if segments.last() is Hole == holes {
            segments.last().size()
        } else {
            0
        })
    }
}

/// The data and the holes of a complete map add up to the range.
pub proof fn data_and_holes_add_up(segments: Seq<FileSegment>, from: int, to: int)
    requires
        tiles(segments, from, to),
    ensures
        bytes_in(segments, false) + bytes_in(segments, true) == to - from,
    decreases segments.len(),
{
    if segments.len() > 0 {
        data_and_holes_add_up(segments.drop_last(), from, segments.last().start());
    }
}

/// Every byte of the range lies in one of the segments.
pub proof fn every_byte_is_mapped(segments: Seq<FileSegment>, from: int, to: int, at: int)
    requires
        tiles(segments, from, to),
        from <= at < to,
    ensures
        exists|i: int|
            0 <= i < segments.len() && (#[trigger] segments[i]).start() <= at
                < segments[i].start() + segments[i].size(),
    decreases segments.len(),
{
    let last = segments.last();
    if at >= last.start() {
        assert(segments[segments.len() - 1] == last);
    } else {
        every_byte_is_mapped(segments.drop_last(), from, last.start(), at);
        let i = choose|i: int|
            0 <= i < segments.drop_last().len() && (#[trigger] segments.drop_last()[i]).start()
                <= at < segments.drop_last()[i].start() + segments.drop_last()[i].size();
        assert(segments[i] == segments.drop_last()[i]);
    }
}

/// The bytes of data and those of holes are the sums of the lengths of the segments of
/// either kind.
pub proof fn segments_are_summed(segments: Seq<FileSegment>, holes: bool)
    ensures
        bytes_in(segments, holes) == segments.fold_left(
            0int,
            |t: int, s: FileSegment|
                t + match s {
                    FileSegment::Data { offset, len } => if holes {
                        0
                    } else {
                        len as int
                    },
                    FileSegment::Hole { offset, len } => if holes {
                        len as int
                    } else {
                        0
                    },
                },
        ),
    decreases segments.len(),
{
    if segments.len() > 0 {
        segments_are_summed(segments.drop_last(), holes);
    }
}

/// Segments that tile a range have no gap between them and do not overlap: each starts
/// where the one before it ends, from the start of the range to its end.
pub proof fn segments_meet(segments: Seq<FileSegment>, from: int, to: int)
    requires
        tiles(segments, from, to),
    ensures
        segments.len() == 0 ==> from == to,
        segments.len() > 0 ==> segments[0].start() == from && segments.last().start()
            + segments.last().size() == to,
        forall|i: int|
            0 <= i < segments.len() - 1 ==> (#[trigger] segments[i]).start() + segments[i].size()
                == segments[i + 1].start(),
        forall|i: int| 0 <= i < segments.len() ==> (#[trigger] segments[i]).size() > 0,
        forall|s: FileSegment|
            #![trigger s.start()]
            (s matches FileSegment::Data { offset, len } ==> s.start() == offset && s.size() == len)
                && (s matches FileSegment::Hole { offset, len } ==> s.start() == offset && s.size()
                == len),
    decreases segments.len(),
{
    if segments.len() > 0 {
        let before = segments.drop_last();
        segments_meet(before, from, segments.last().start());
        assert forall|i: int| 0 <= i < segments.len() - 1 implies (#[trigger] segments[i]).start()
            + segments[i].size() == segments[i + 1].start() by {
            assert(before[i] == segments[i]);
            if i + 1 < before.len() {
                assert(before[i + 1] == segments[i + 1]);
            }
        }
        assert forall|i: int| 0 <= i < segments.len() implies (#[trigger] segments[i]).size()
            > 0 by {
            if i < before.len() {
                assert(before[i] == segments[i]);
            }
        }
        if before.len() > 0 {
            assert(before[0] == segments[0]);
        }
    }
}

/// Where no more data comes, one hole reaches to the end.
pub proof fn rest_is_a_hole(before: SparseMap, after: SparseMap)
    requires
        before.closes_with_hole(&after),
        before.current <= before.end,
    ensures
        after.current == after.end,
        after.segments@.len() == before.segments@.len() + 1,
        after.segments@.drop_last() == before.segments@,
        after.segments@.last() matches FileSegment::Hole { offset, len } && offset == before.current
            && offset + len == before.end,
{
}

/// Up to where data is found there is a hole, and up to where a hole is found there is data;
/// where nothing more is found, the rest is a hole.
pub proof fn data_and_holes_alternate(
    m: &mut SparseMap,
    found: Result<u64, i32>,
    said: &str,
    res: Result<SeekStep, FxcpError>,
)
    requires
        call_ensures(SparseMap::on_data, (m, found, said), res),
        old(m).current < old(m).end,
    ensures
        found matches Ok(d) ==> old(m).current < d < old(m).end ==> {
            &&& final(m).segments@.drop_last() == old(m).segments@
            &&& final(m).segments@.last() matches FileSegment::Hole { offset, len } && offset
                == old(m).current && offset + len == d
            &&& final(m).current == d
        },
        found == Err::<u64, i32>(6i32) || (found matches Ok(d) && d >= old(m).end) ==> {
            &&& final(m).segments@.drop_last() == old(m).segments@
            &&& final(m).segments@.last() matches FileSegment::Hole { offset, len } && offset
                == old(m).current && offset + len == old(m).end
            &&& final(m).current == final(m).end
        },
        found matches Err(e) ==> e != 6 ==> res is Err && final(m).segments@ == old(m).segments@,
{
    assert(final(m).segments@.len() > 0 ==> final(m).segments@.drop_last().len()
        == final(m).segments@.len() - 1);
}

/// Data reaches to the next hole, or to the end where there is none before it.
pub proof fn data_reaches_to_the_hole(m: &mut SparseMap, found: Option<u64>, step: SeekStep)
    requires
        call_ensures(SparseMap::on_hole, (m, found), step),
        old(m).current < old(m).end,
        found is Some ==> found->0 > old(m).current,
    ensures
        ({
            let to = if found is Some && found->0 < old(m).end {
                found->0
            } else {
                old(m).end
            };
            &&& final(m).segments@.drop_last() == old(m).segments@
            &&& final(m).segments@.last() matches FileSegment::Data { offset, len } && offset
                == old(m).current && offset + len == to
            &&& final(m).current == to
            &&& step == if to < old(m).end {
                SeekStep::Data(to)
            } else {
                SeekStep::Done
            }
        }),
{
}

} // verus!
