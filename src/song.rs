use vstd::prelude::*;

verus! {

/// Tag data read from an audio file: the optional text fields and the
/// playing time in milliseconds.
pub struct SongMetaData {
    pub title: Option<String>,
    pub artist: Option<String>,
    pub album: Option<String>,
    pub duration_ms: u64,
    pub lyrics: Option<String>,
}

impl SongMetaData {
    /// Whole minutes and remaining seconds of the playing time, as shown on a
    /// `mm:ss` clock.
    pub fn clock(&self) -> (r: (u64, u64))
        ensures
            r.0 == self.duration_ms / 60000,
            r.1 == (self.duration_ms / 1000) % 60,
            r.1 < 60,
    {
        let secs = self.duration_ms / 1000;
        (secs / 60, secs % 60)
    }
}

} // verus!
