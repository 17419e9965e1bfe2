//! Exclusive model residency. At most one of the transcriber and the
//! summarizer is resident at any time; the embedder may share residency
//! with the summarizer but never with the transcriber. Loading one side
//! first unloads the other, so exclusivity holds by construction.

use vstd::prelude::*;

use crate::rag::{embed_spec, embedding_wf, VectorStore};
use crate::summarizer::{summarize_spec, LlmModel};
use crate::textutil::copy_bytes;

verus! {

/// Marker of a resident transcription model. The heavy inference handle
/// lives with the host process; this slot carries the residency decision.
pub struct AsrModel {}

impl AsrModel {
    pub fn load(_models_dir: &[u8]) -> (r: Self) {
        AsrModel {  }
    }
}

pub struct ModelManager {
    asr: Option<AsrModel>,
    llm: Option<LlmModel>,
    rag: Option<VectorStore>,
    models_dir: Vec<u8>,
}

impl ModelManager {
    pub closed spec fn asr_resident(&self) -> bool {
        self.asr is Some
    }

    pub closed spec fn llm_resident(&self) -> bool {
        self.llm is Some
    }

    pub closed spec fn rag_resident(&self) -> bool {
        self.rag is Some
    }

    /// The residency invariant: the transcriber never shares memory with
    /// the summarizer or the embedder.
    pub open spec fn inv(&self) -> bool {
        self.asr_resident() ==> !self.llm_resident() && !self.rag_resident()
    }

    /// The summarizer slot, when resident, is loaded.
    pub closed spec fn llm_loaded_ok(&self) -> bool {
        self.llm matches Some(m) ==> m.is_loaded()
    }

    pub fn new(models_dir: &[u8]) -> (r: Self)
        ensures
            !r.asr_resident(),
            !r.llm_resident(),
            !r.rag_resident(),
            r.inv(),
            r.llm_loaded_ok(),
    {
        ModelManager { asr: None, llm: None, rag: None, models_dir: copy_bytes(models_dir) }
    }

    /// Load the transcriber, first evicting the summarizer and embedder.
    pub fn load_asr(&mut self)
        ensures
            final(self).asr_resident(),
            !final(self).llm_resident(),
            !final(self).rag_resident(),
            final(self).inv(),
            final(self).llm_loaded_ok(),
    {
        if self.llm.is_some() {
            self.unload_llm();
        }
        if self.rag.is_some() {
            self.unload_rag();
        }
        if self.asr.is_none() {
            self.asr = Some(AsrModel::load(self.models_dir.as_slice()));
        }
    }

    pub fn unload_asr(&mut self)
        ensures
            !final(self).asr_resident(),
            final(self).llm_resident() == old(self).llm_resident(),
            final(self).rag_resident() == old(self).rag_resident(),
            final(self).inv(),
            final(self).llm_loaded_ok() == old(self).llm_loaded_ok(),
    {
        if self.asr.is_some() {
            self.asr = None;
        }
    }

    /// Load the summarizer, first evicting the transcriber.
    pub fn load_llm(&mut self)
        ensures
            !final(self).asr_resident(),
            final(self).llm_resident(),
            final(self).rag_resident() == old(self).rag_resident(),
            final(self).inv(),
            final(self).llm_loaded_ok(),
    {
        if self.asr.is_some() {
            self.unload_asr();
        }
        if self.llm.is_none() {
            self.llm = Some(LlmModel::load(self.models_dir.as_slice()));
        } else {
            let fresh = LlmModel::load(self.models_dir.as_slice());
            self.llm = Some(fresh);
        }
    }

    pub fn unload_llm(&mut self)
        ensures
            !final(self).llm_resident(),
            final(self).asr_resident() == old(self).asr_resident(),
            final(self).rag_resident() == old(self).rag_resident(),
            old(self).inv() ==> final(self).inv(),
            final(self).llm_loaded_ok(),
    {
        if self.llm.is_some() {
            self.llm = None;
            self.force_gc();
        }
    }

    /// Load the embedder, first evicting the transcriber; it may share
    /// residency with the summarizer. An already-resident store is kept.
    pub fn load_rag(&mut self)
        ensures
            !final(self).asr_resident(),
            final(self).rag_resident(),
            final(self).llm_resident() == old(self).llm_resident(),
            final(self).inv(),
            final(self).llm_loaded_ok() == old(self).llm_loaded_ok(),
    {
        if self.asr.is_some() {
            self.unload_asr();
        }
        if self.rag.is_none() {
            self.rag = Some(VectorStore::new());
        }
    }

    pub fn unload_rag(&mut self)
        ensures
            !final(self).rag_resident(),
            final(self).asr_resident() == old(self).asr_resident(),
            final(self).llm_resident() == old(self).llm_resident(),
            old(self).inv() ==> final(self).inv(),
            final(self).llm_loaded_ok() == old(self).llm_loaded_ok(),
    {
        if self.rag.is_some() {
            self.rag = None;
        }
    }

    /// Summarize `text`: the summarizer's exact output when resident, an
    /// empty result when not.
    pub fn summarize(&self, text: &[u8]) -> (r: Vec<u8>)
        requires
            self.llm_loaded_ok(),
        ensures
            self.llm_resident() ==> r@ == summarize_spec(text@),
            !self.llm_resident() ==> r@ == Seq::<u8>::empty(),
    {
        match &self.llm {
            Some(llm) => llm.summarize(text),
            None => Vec::new(),
        }
    }

    /// Embed `text`: the embedder's exact output when resident, `None`
    /// when not.
    pub fn embed(&self, text: &[u8]) -> (r: Option<Vec<i64>>)
        ensures
            self.rag_resident() ==> (r matches Some(v) && v@ == embed_spec(text@)
                && embedding_wf(v@)),
            !self.rag_resident() ==> r is None,
    {
        match &self.rag {
            Some(rag) => Some(rag.embed(text)),
            None => None,
        }
    }

    /// Ask the allocator to return free pages; advisory, with no effect on
    /// the manager's state.
    pub fn force_gc(&self) {
    }

    /// Runtime view of the residency flags, for callers that observe them.
    pub fn residency(&self) -> (r: (bool, bool, bool))
        ensures
            r.0 == self.asr_resident(),
            r.1 == self.llm_resident(),
            r.2 == self.rag_resident(),
    {
        (self.asr.is_some(), self.llm.is_some(), self.rag.is_some())
    }
}

/// The residency law: under the invariant the transcriber and the
/// summarizer are never both resident, nor the transcriber and the
/// embedder.
pub proof fn lemma_residency_exclusive(m: ModelManager)
    requires
        m.inv(),
    ensures
        !(m.asr_resident() && m.llm_resident()),
        !(m.asr_resident() && m.rag_resident()),
{
}

} // verus!
