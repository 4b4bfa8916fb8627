use vstd::prelude::*;

verus! {

/// Which of the two producer streams a completion belongs to.
#[derive(Clone, Copy, Debug, PartialEq, Eq, Structural)]
pub enum Stream {
    /// The main per-index payload.
    Primary,
    /// The optional secondary payload (an alpha plane), paired by index.
    Auxiliary,
}

/// What has arrived so far for one requested index.
#[derive(Debug)]
pub struct FrameSlot {
    pub primary: Option<Vec<u8>>,
    pub auxiliary: Option<Vec<u8>>,
    pub primary_failed: bool,
    pub auxiliary_failed: bool,
}

impl FrameSlot {
    /// The slot holds the primary payload and, where pairing is on, the
    /// auxiliary one: it can be emitted.
    pub open spec fn complete(&self, paired: bool) -> bool {
        self.primary is Some && (!paired || self.auxiliary is Some)
    }

    /// Every response owed for this index has come back, good or bad.
    pub open spec fn resolved(&self, paired: bool) -> bool {
        (self.primary is Some || self.primary_failed) && (!paired || self.auxiliary is Some
            || self.auxiliary_failed)
    }

    /// Some response for this index reported a failure.
    pub open spec fn failed(&self) -> bool {
        self.primary_failed || self.auxiliary_failed
    }

    /// A response for `stream` has already been recorded.
    pub open spec fn has_arrived(&self, stream: Stream) -> bool {
        match stream {
            Stream::Primary => self.primary is Some || self.primary_failed,
            Stream::Auxiliary => self.auxiliary is Some || self.auxiliary_failed,
        }
    }

    /// A slot for an index whose responses are all still outstanding.
    pub fn empty() -> (r: FrameSlot)
        ensures
            r.primary is None,
            r.auxiliary is None,
            !r.primary_failed,
            !r.auxiliary_failed,
    {
        FrameSlot { primary: None, auxiliary: None, primary_failed: false, auxiliary_failed: false }
    }

    pub fn is_complete(&self, paired: bool) -> (r: bool)
        ensures
            r == self.complete(paired),
    {
        self.primary.is_some() && (!paired || self.auxiliary.is_some())
    }

    pub fn is_resolved(&self, paired: bool) -> (r: bool)
        ensures
            r == self.resolved(paired),
    {
        (self.primary.is_some() || self.primary_failed) && (!paired || self.auxiliary.is_some()
            || self.auxiliary_failed)
    }

    pub fn arrived(&self, stream: Stream) -> (r: bool)
        ensures
            r == self.has_arrived(stream),
    {
        match stream {
            Stream::Primary => self.primary.is_some() || self.primary_failed,
            Stream::Auxiliary => self.auxiliary.is_some() || self.auxiliary_failed,
        }
    }
}

} // verus!
