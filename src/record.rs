use vstd::prelude::*;

verus! {

/// The bytes that open each frame when framed output is on: `FRAME\n`.
pub open spec fn frame_marker() -> Seq<u8> {
    seq![70u8, 82u8, 65u8, 77u8, 69u8, 10u8]
}

/// The bytes written for one emitted index: the marker where framing is on,
/// then the primary payload, then the auxiliary payload if there is one.
pub open spec fn record_bytes(framed: bool, primary: Seq<u8>, auxiliary: Seq<u8>) -> Seq<u8> {
    (if framed {
        frame_marker()
    } else {
        Seq::<u8>::empty()
    }) + primary + auxiliary
}

/// The bytes of an optional payload; none when it is absent.
pub open spec fn optional_bytes(payload: Option<Vec<u8>>) -> Seq<u8> {
    match payload {
        Some(p) => p@,
        None => Seq::<u8>::empty(),
    }
}

/// A byte-writing output boundary.
///
/// A sink may describe itself to the verifier: an implementation that keeps
/// track of the bytes it accepted says so through `tracks_bytes` and
/// `written`, and one that never fails says so through `infallible`. Without
/// them nothing is claimed of its writes.
pub trait ByteSink {
    /// `written` is kept up to date by this sink.
    open spec fn tracks_bytes(&self) -> bool {
        false
    }

    /// Every byte this sink has accepted so far, in order, where it tracks them.
    open spec fn written(&self) -> Seq<u8> {
        Seq::<u8>::empty()
    }

    /// The sink never refuses a write or a flush.
    open spec fn infallible(&self) -> bool {
        false
    }

    /// Writes all of `data`, or reports why it could not.
    fn write_all(&mut self, data: &[u8]) -> (r: Result<(), String>)
        ensures
            old(self).tracks_bytes() ==> final(self).tracks_bytes() && (r is Ok ==> final(
            self).written() == old(self).written() + data@),
            old(self).infallible() ==> r is Ok && final(self).infallible(),
    ;

    /// Pushes buffered bytes to their destination.
    fn flush(&mut self) -> (r: Result<(), String>)
        ensures
            old(self).tracks_bytes() ==> final(self).tracks_bytes() && final(self).written() == old(
            self).written(),
            old(self).infallible() ==> r is Ok && final(self).infallible(),
    ;
}

/// An output that discards everything and never fails. It remembers, as
/// ghost state only, what it was handed.
pub struct NullSink {
    handed: Ghost<Seq<u8>>,
}

impl NullSink {
    pub fn new() -> (r: NullSink)
        ensures
            r.tracks_bytes(),
            r.written() == Seq::<u8>::empty(),
            r.infallible(),
    {
        NullSink { handed: Ghost(Seq::empty()) }
    }
}

impl ByteSink for NullSink {
    open spec fn tracks_bytes(&self) -> bool {
        true
    }

    closed spec fn written(&self) -> Seq<u8> {
        self.handed@
    }

    open spec fn infallible(&self) -> bool {
        true
    }

    fn write_all(&mut self, data: &[u8]) -> (r: Result<(), String>) {
        self.handed = Ghost(self.handed@ + data@);
        Ok(())
    }

    fn flush(&mut self) -> (r: Result<(), String>) {
        Ok(())
    }
}

/// An output that keeps every byte written to it, in order.
#[derive(Debug, Default)]
pub struct MemorySink {
    pub bytes: Vec<u8>,
}

impl ByteSink for MemorySink {
    open spec fn tracks_bytes(&self) -> bool {
        true
    }

    open spec fn written(&self) -> Seq<u8> {
        self.bytes@
    }

    open spec fn infallible(&self) -> bool {
        true
    }

    fn write_all(&mut self, data: &[u8]) -> (r: Result<(), String>) {
        append_bytes(&mut self.bytes, data);
        Ok(())
    }

    fn flush(&mut self) -> (r: Result<(), String>) {
        Ok(())
    }
}

/// The plane written at `position` of a frame: RGB frames are written as
/// green, blue, red; other frames in their own plane order.
pub open spec fn spec_plane_order(rgb: bool, position: int) -> int {
    if rgb && position == 0 {
        1
    } else if rgb && position == 1 {
        2
    } else if rgb && position == 2 {
        0
    } else {
        position
    }
}

/// Which plane to write at `position`. An RGB frame has three planes.
pub fn plane_order(rgb: bool, position: usize) -> (r: usize)
    requires
        rgb ==> position < 3,
    ensures
        r == spec_plane_order(rgb, position as int),
{
    if !rgb {
        position
    } else if position == 0 {
        1
    } else if position == 1 {
        2
    } else {
        0
    }
}

/// Appends `data` to `out`.
pub fn append_bytes(out: &mut Vec<u8>, data: &[u8])
    ensures
        final(out)@ == old(out)@ + data@,
{
    let mut i: usize = 0;
    while i < data.len()
        invariant
            i <= data@.len(),
            out@ == old(out)@ + data@.subrange(0, i as int),
        decreases data@.len() - i,
    {
        out.push(data[i]);
        i = i + 1;
        assert(data@.subrange(0, i as int) == data@.subrange(0, i - 1) + seq![data@[i - 1]]);
    }
    assert(data@.subrange(0, i as int) == data@);
}

/// Builds the bytes of one emitted index, as `record_bytes` describes.
pub fn frame_record(framed: bool, primary: &Vec<u8>, auxiliary: &Option<Vec<u8>>) -> (r: Vec<u8>)
    ensures
        r@ == record_bytes(framed, primary@, optional_bytes(*auxiliary)),
{
    let mut r: Vec<u8> = Vec::new();
    if framed {
        r.push(70u8);
        r.push(82u8);
        r.push(65u8);
        r.push(77u8);
        r.push(69u8);
        r.push(10u8);
        assert(r@ == frame_marker());
    }
    append_bytes(&mut r, primary.as_slice());
    match auxiliary {
        Some(a) => {
            append_bytes(&mut r, a.as_slice());
        },
        None => {},
    }
    proof {
        let head = if framed {
            frame_marker()
        } else {
            Seq::<u8>::empty()
        };
        assert(head + Seq::<u8>::empty() == head);
    }
    r
}

} // verus!
