//! Voice-activity detection facade. No inference backend is wired up;
//! every chunk is treated as speech.

use vstd::prelude::*;

verus! {

pub struct VadEngine {
    model_path: Vec<u8>,
}

impl VadEngine {
    /// The configured model location, as UTF-8 bytes.
    pub closed spec fn path(&self) -> Seq<u8> {
        self.model_path@
    }

    pub fn new(model_path: &[u8]) -> (r: Self)
        ensures
            r.path() == model_path@,
    {
        let mut p: Vec<u8> = Vec::new();
        p.extend_from_slice(model_path);
        proof {
            assert(p@ =~= model_path@);
        }
        VadEngine { model_path: p }
    }

    /// Whether the chunk holds speech; the stub backend accepts everything.
    /// Samples are raw 32-bit patterns of capture floats.
    pub fn is_speech(&mut self, audio_chunk: &[u32]) -> (r: bool)
        ensures
            r == true,
            final(self).path() == old(self).path(),
    {
        let _ = audio_chunk.len();
        true
    }
}

} // verus!
