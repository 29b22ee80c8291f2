//! Resolved locations of the external executables the pipeline drives.
//! Finding or fetching them is the caller's business; the library only
//! carries the paths around, read-only.

use vstd::prelude::*;

verus! {

/// Filesystem paths of the resolver executable and the auxiliary media
/// tools, resolved once at startup.
#[derive(Debug, Clone)]
pub struct DependencyPaths {
    pub ffmpeg: String,
    pub ffprobe: String,
    pub covit: String,
}

impl DependencyPaths {
    /// Path of the media transcoder.
    pub fn ffmpeg(&self) -> (r: &str)
        ensures
            r@ == self.ffmpeg@,
    {
        self.ffmpeg.as_str()
    }

    /// Path of the media prober.
    pub fn ffprobe(&self) -> (r: &str)
        ensures
            r@ == self.ffprobe@,
    {
        self.ffprobe.as_str()
    }

    /// Path of the cover resolver executable.
    pub fn covit(&self) -> (r: &str)
        ensures
            r@ == self.covit@,
    {
        self.covit.as_str()
    }
}

} // verus!
