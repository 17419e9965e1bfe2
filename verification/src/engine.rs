//! The engine controller: a single-owner state machine over recorder
//! output, model residency, the rolling transcript, the swap-window audio
//! buffer, the endurance mode and the encrypted store.
//!
//! The host drives it: each tick it hands over the audio drained from the
//! capture queue and the platform thermal reading, and receives the
//! transcription jobs to run; the transcribed text comes back through
//! `submit_transcription`, which filters and appends it. Transcription
//! itself is host work (the inference runtime is not modeled here), so a
//! tick decides everything and performs nothing irreversible.

use vstd::prelude::*;

use crate::audio_buffer::{fifo_push, CircularAudioBuffer, AUDIO_BUFFER_CAPACITY};
use crate::db::{content_plain, Database, NoteRow, StoreError, now_ts};
use crate::endurance::{next_mode, EnduranceController, EnduranceMode};
use crate::lang::{detect_spec, LanguageDetector};
use crate::manager::ModelManager;
use crate::rag::embed_spec;
use crate::security::sealed_layout;
use crate::summarizer::{blank_marker, summarize_spec};
use crate::text::{push_result, RollingBuffer};
use crate::textutil::{
    contains_seq, contains_sub, copy_bytes, copy_bytes_u32, dec_seq_i64, ends_with, ends_with_seq,
    i64_to_dec,
    trim_bytes, trim_end_bytes, trim_end_seq, trim_seq, trim_start_seq,
};

verus! {

/// Engine lifecycle states.
#[derive(Debug, Clone, Copy, PartialEq, Eq, Structural)]
pub enum EngineState {
    Idle,
    Recording,
    Summarizing,
}

/// The allowed state transitions: stay, start, stop, resume.
pub open spec fn ok_transition(a: EngineState, b: EngineState) -> bool {
    ||| a == b
    ||| (a == EngineState::Idle && b == EngineState::Recording)
    ||| (a == EngineState::Recording && b == EngineState::Summarizing)
    ||| (a == EngineState::Summarizing && b == EngineState::Recording)
}

/// Errors the engine surfaces to the host.
#[derive(Debug, Clone, Copy, PartialEq, Eq, Structural)]
pub enum EngineError {
    /// No capture device was available to start recording.
    NoInputDevice,
    /// The operation needs a recording (or summarizing) session.
    NotRecording,
    /// The store could not be opened or written.
    Store,
}

/// What a transcription job is for; the filter applied to its result
/// depends on it.
#[derive(Debug, Clone, Copy, PartialEq, Eq, Structural)]
pub enum AsrJobKind {
    /// Batched audio of a two-minute endurance checkpoint.
    CheckpointBatch,
    /// Swap-window audio drained on return to high performance.
    DrainBuffered,
    /// A streaming window of live audio.
    LiveSegment,
}

/// One transcription request handed to the host.
pub struct AsrJob {
    pub kind: AsrJobKind,
    pub samples: Vec<u32>,
}

/// What a completed summary hands back to the host.
pub struct SummaryOutcome {
    /// The summarizer's output over the transcript and retrieved context.
    pub summary: Vec<u8>,
    /// Detected language tag of the transcript.
    pub language: Vec<u8>,
    /// The saved or appended note, when persistence succeeded.
    pub note_id: Option<i64>,
    /// The session's samples, handed out for WAV persistence when a note
    /// was saved; empty (and retained inside) otherwise.
    pub session_audio: Vec<u32>,
    /// The retrieved-context block appended to the summarizer input:
    /// prior notes whose embeddings scored above the threshold.
    pub context_block: Vec<u8>,
}

/// A live segment is appended only if it is non-empty, free of the
/// blank-audio artifact, non-blank after trimming, and not already the
/// (right-trimmed) tail of the transcript: the loop breaker.
pub open spec fn live_accepted(transcript: Seq<u8>, text: Seq<u8>) -> bool {
    &&& text.len() > 0
    &&& !contains_seq(text, blank_marker())
    &&& trim_seq(text).len() > 0
    &&& !ends_with_seq(trim_end_seq(transcript), trim_seq(text))
}

/// The bytes of "Note " followed by the decimal timestamp: a new note's
/// title.
pub open spec fn note_title_spec(ts: int) -> Seq<u8> {
    seq![78u8, 111u8, 116u8, 101u8, 32u8] + dec_seq_i64(ts)
}

/// The bytes of "\n\n---\n\n", separating existing content from an
/// appended summary.
pub open spec fn append_separator() -> Seq<u8> {
    seq![10u8, 10u8, 45u8, 45u8, 45u8, 10u8, 10u8]
}

/// The mode the endurance controller decides this tick, given the
/// platform reading.
pub open spec fn decided_mode(e: EnduranceController, reading: Option<i64>) -> EnduranceMode {
    if e.simulated() {
        e.mode()
    } else {
        next_mode(
            e.mode(),
            match reading {
                Some(t) => t as int,
                None => e.cpu_milli(),
            },
            e.battery_milli(),
        )
    }
}

/// The swap-window buffer after the checkpoint step: a checkpoint always
/// flushes it.
pub open spec fn pending_after_checkpoint(p0: Seq<u32>, checkpoint: bool) -> Seq<u32> {
    if checkpoint {
        Seq::empty()
    } else {
        p0
    }
}

/// ... after the drain step: high performance drains whatever is left.
pub open spec fn pending_after_drain(p1: Seq<u32>, m: EnduranceMode) -> Seq<u32> {
    if p1.len() > 0 && m == EnduranceMode::HighPerformance {
        Seq::empty()
    } else {
        p1
    }
}

/// ... after the live step: endurance mode banks the new audio.
pub open spec fn pending_after_live(
    p2: Seq<u32>,
    audio: Seq<u32>,
    m: EnduranceMode,
    cap: int,
) -> Seq<u32> {
    if audio.len() > 0 && m == EnduranceMode::Endurance {
        fifo_push(p2, audio, cap)
    } else {
        p2
    }
}

/// The streaming accumulator after a tick: high performance extends it
/// and flushes it at the three-second window.
pub open spec fn accum_after(a0: Seq<u32>, audio: Seq<u32>, m: EnduranceMode) -> Seq<u32> {
    if audio.len() > 0 && m == EnduranceMode::HighPerformance {
        if (a0 + audio).len() >= 48000 {
            Seq::empty()
        } else {
            a0 + audio
        }
    } else {
        a0
    }
}

/// Whether this tick emits a live-segment job.
pub open spec fn live_emitted(a0: Seq<u32>, audio: Seq<u32>, m: EnduranceMode) -> bool {
    audio.len() > 0 && m == EnduranceMode::HighPerformance && (a0 + audio).len() >= 48000
}

/// The jobs a recording tick emits, as (kind, samples) pairs, in the
/// order the host must run them.
pub open spec fn tick_jobs_spec(
    p0: Seq<u32>,
    a0: Seq<u32>,
    audio: Seq<u32>,
    m: EnduranceMode,
    checkpoint: bool,
) -> Seq<(AsrJobKind, Seq<u32>)> {
    (if checkpoint && m == EnduranceMode::Endurance {
        seq![(AsrJobKind::CheckpointBatch, p0)]
    } else {
        Seq::empty()
    }) + (if pending_after_checkpoint(p0, checkpoint).len() > 0 && m
        == EnduranceMode::HighPerformance {
        seq![(AsrJobKind::DrainBuffered, pending_after_checkpoint(p0, checkpoint))]
    } else {
        Seq::empty()
    }) + (if live_emitted(a0, audio, m) {
        seq![(AsrJobKind::LiveSegment, a0 + audio)]
    } else {
        Seq::empty()
    })
}

/// The (kind, samples) view of emitted jobs.
pub open spec fn jobs_view(jobs: Seq<AsrJob>) -> Seq<(AsrJobKind, Seq<u32>)> {
    Seq::new(jobs.len(), |i: int| (jobs[i].kind, jobs[i].samples@))
}

pub struct Engine {
    state: EngineState,
    audio_buffer: CircularAudioBuffer,
    model_manager: ModelManager,
    buffer: RollingBuffer,
    lang_detector: LanguageDetector,
    current_subject: Vec<u8>,
    current_folder_id: Option<i64>,
    endurance: EnduranceController,
    tick_count: u64,
    database: Database,
    models_dir: Vec<u8>,
    transcription_buffer: Vec<u32>,
    full_session_audio: Vec<u32>,
}

impl Engine {
    pub closed spec fn state(&self) -> EngineState {
        self.state
    }

    pub closed spec fn tick_count_spec(&self) -> u64 {
        self.tick_count
    }

    /// The rolling transcript bytes.
    pub closed spec fn transcript(&self) -> Seq<u8> {
        self.buffer.contents()
    }

    pub closed spec fn transcript_max(&self) -> int {
        self.buffer.max_len()
    }

    /// Samples banked in the swap-window buffer.
    pub closed spec fn pending_audio(&self) -> Seq<u32> {
        self.audio_buffer.contents()
    }

    /// Samples of the current session, kept for WAV persistence.
    pub closed spec fn session_audio(&self) -> Seq<u32> {
        self.full_session_audio@
    }

    /// Samples accumulated toward the next streaming window.
    pub closed spec fn accum(&self) -> Seq<u32> {
        self.transcription_buffer@
    }

    pub closed spec fn endurance_state(&self) -> EnduranceController {
        self.endurance
    }

    pub closed spec fn mode(&self) -> EnduranceMode {
        self.endurance.mode()
    }

    pub closed spec fn folder(&self) -> Option<i64> {
        self.current_folder_id
    }

    pub closed spec fn subject(&self) -> Seq<u8> {
        self.current_subject@
    }

    pub closed spec fn asr_resident(&self) -> bool {
        self.model_manager.asr_resident()
    }

    pub closed spec fn llm_resident(&self) -> bool {
        self.model_manager.llm_resident()
    }

    pub closed spec fn rag_resident(&self) -> bool {
        self.model_manager.rag_resident()
    }

    pub closed spec fn notes(&self) -> Map<i64, NoteRow> {
        self.database.notes()
    }

    pub closed spec fn folders(&self) -> Map<i64, (Seq<u8>, i64)> {
        self.database.folders()
    }

    pub closed spec fn attachments(&self) -> Map<i64, (i64, Seq<u8>, Seq<u8>, i64)> {
        self.database.attachments()
    }

    pub closed spec fn embeddings(&self) -> Map<i64, Seq<i64>> {
        self.database.embeddings()
    }

    pub closed spec fn store_key(&self) -> Seq<u8> {
        self.database.key()
    }

    /// The engine's well-formedness: residency exclusive, buffers within
    /// bounds, store key derived.
    pub closed spec fn wf(&self) -> bool {
        &&& self.model_manager.inv()
        &&& self.model_manager.llm_loaded_ok()
        &&& self.audio_buffer.wf()
        &&& self.audio_buffer.cap() == AUDIO_BUFFER_CAPACITY as int
        &&& self.database.wf()
    }

    /// The store and everything the swap protocol does not touch.
    pub open spec fn same_session_plumbing(pre: Self, post: Self) -> bool {
        &&& post.tick_count_spec() == pre.tick_count_spec()
        &&& post.endurance_state() == pre.endurance_state()
        &&& post.folder() == pre.folder()
        &&& post.subject() == pre.subject()
        &&& post.store_key() == pre.store_key()
        &&& post.transcript_max() == pre.transcript_max()
    }

    fn build(database: Database, models_dir: &[u8]) -> (r: Engine)
        requires
            database.wf(),
        ensures
            r.wf(),
            r.state() == EngineState::Idle,
            r.tick_count_spec() == 0,
            r.transcript() == Seq::<u8>::empty(),
            r.pending_audio() == Seq::<u32>::empty(),
            r.session_audio() == Seq::<u32>::empty(),
            r.accum() == Seq::<u32>::empty(),
            !r.asr_resident() && !r.llm_resident() && !r.rag_resident(),
            r.mode() == EnduranceMode::HighPerformance,
            r.folder() is None,
            r.notes() == database.notes(),
            r.folders() == database.folders(),
            r.attachments() == database.attachments(),
            r.embeddings() == database.embeddings(),
            r.store_key() == database.key(),
            r.transcript_max() == 8000,
    {
        let subject: [u8; 7] = [71, 101, 110, 101, 114, 97, 108];
        Engine {
            state: EngineState::Idle,
            audio_buffer: CircularAudioBuffer::new(),
            model_manager: ModelManager::new(models_dir),
            buffer: RollingBuffer::new(8000),
            lang_detector: LanguageDetector::new(),
            current_subject: copy_bytes(subject.as_slice()),
            current_folder_id: None,
            endurance: EnduranceController::new(),
            tick_count: 0,
            database,
            models_dir: copy_bytes(models_dir),
            transcription_buffer: Vec::new(),
            full_session_audio: Vec::new(),
        }
    }

    /// Open the store at `db_path` (with the build's fixed passphrase, a
    /// scaffold choice) and assemble the engine. `None` when the store
    /// cannot be opened.
    pub fn new(db_path: &str, models_dir: &[u8]) -> (r: Option<Engine>)
        ensures
            r matches Some(e) ==> e.wf() && e.state() == EngineState::Idle && e.tick_count_spec()
                == 0 && e.transcript() == Seq::<u8>::empty() && e.pending_audio() == Seq::<
                u32,
            >::empty() && e.session_audio() == Seq::<u32>::empty() && !e.asr_resident()
                && !e.llm_resident() && !e.rag_resident(),
    {
        let database = match Database::open(db_path, "default_password") {
            Some(d) => d,
            None => {
                return None;
            },
        };
        Some(Self::build(database, models_dir))
    }

    /// Assemble the engine over a fresh in-memory store.
    pub fn new_in_memory(models_dir: &[u8]) -> (r: Option<Engine>)
        ensures
            r matches Some(e) ==> e.wf() && e.state() == EngineState::Idle && e.tick_count_spec()
                == 0 && e.transcript() == Seq::<u8>::empty() && e.pending_audio() == Seq::<
                u32,
            >::empty() && e.session_audio() == Seq::<u32>::empty() && !e.asr_resident()
                && !e.llm_resident() && !e.rag_resident() && e.notes() == Map::<
                i64,
                NoteRow,
            >::empty() && e.folders() == Map::<i64, (Seq<u8>, i64)>::empty() && e.embeddings()
                == Map::<i64, Seq<i64>>::empty() && e.mode() == EnduranceMode::HighPerformance
                && e.folder() is None && e.transcript_max() == 8000,
    {
        let database = match Database::open_in_memory("default_password") {
            Some(d) => d,
            None => {
                return None;
            },
        };
        Some(Self::build(database, models_dir))
    }

    pub fn set_subject(&mut self, subject: &[u8])
        ensures
            final(self).subject() == subject@,
            final(self).state() == old(self).state(),
            final(self).wf() == old(self).wf(),
            final(self).transcript() == old(self).transcript(),
            final(self).pending_audio() == old(self).pending_audio(),
            final(self).session_audio() == old(self).session_audio(),
            final(self).accum() == old(self).accum(),
            final(self).tick_count_spec() == old(self).tick_count_spec(),
            final(self).endurance_state() == old(self).endurance_state(),
            final(self).folder() == old(self).folder(),
            final(self).asr_resident() == old(self).asr_resident(),
            final(self).llm_resident() == old(self).llm_resident(),
            final(self).rag_resident() == old(self).rag_resident(),
            Self::same_store(*old(self), *final(self)),
    {
        self.current_subject = copy_bytes(subject);
    }

    /// Load the transcriber, then start capture (the host reports whether
    /// a device was available) and enter `Recording` with a fresh session
    /// buffer. Without a device the state is unchanged, though the
    /// transcriber stays loaded, as a retry will want it.
    pub fn start_recording(&mut self, device_available: bool) -> (r: Result<(), EngineError>)
        requires
            old(self).wf(),
        ensures
            final(self).wf(),
            ok_transition(old(self).state(), final(self).state()),
            final(self).asr_resident() && !final(self).llm_resident() && !final(self).rag_resident(),
            final(self).transcript() == old(self).transcript(),
            final(self).pending_audio() == old(self).pending_audio(),
            final(self).accum() == old(self).accum(),
            Self::same_session_plumbing(*old(self), *final(self)),
            final(self).notes() == old(self).notes(),
            final(self).folders() == old(self).folders(),
            final(self).attachments() == old(self).attachments(),
            final(self).embeddings() == old(self).embeddings(),
            device_available ==> r is Ok && final(self).state() == EngineState::Recording && final(self).session_audio() == Seq::<u32>::empty(),
            !device_available ==> r == Err::<(), EngineError>(EngineError::NoInputDevice) && final(self).state() == old(self).state() && final(self).session_audio() == old(self).session_audio(),
    {
        self.model_manager.load_asr();
        if !device_available {
            return Err(EngineError::NoInputDevice);
        }
        self.state = EngineState::Recording;
        self.full_session_audio.clear();
        proof {
            assert(self.full_session_audio@ =~= Seq::<u32>::empty());
        }
        Ok(())
    }

    /// Forward a battery temperature from the host, in millidegrees.
    pub fn update_battery_temp(&mut self, temp_milli: i64)
        ensures
            final(self).wf() == old(self).wf(),
            final(self).state() == old(self).state(),
            final(self).endurance_state().battery_milli() == temp_milli as int,
            final(self).endurance_state().cpu_milli() == old(self).endurance_state().cpu_milli(),
            final(self).endurance_state().simulated() == old(self).endurance_state().simulated(),
            final(self).mode() == old(self).mode(),
            final(self).transcript() == old(self).transcript(),
            final(self).pending_audio() == old(self).pending_audio(),
    {
        self.endurance.update_battery_temp(temp_milli);
    }

    /// Freeze the endurance controller for tests.
    pub fn simulate_environment(&mut self, battery_milli: i64, temp_milli: i64)
        ensures
            final(self).wf() == old(self).wf(),
            final(self).state() == old(self).state(),
            final(self).endurance_state().simulated(),
            final(self).mode() == old(self).mode(),
    {
        self.endurance.simulate_environment(battery_milli, temp_milli);
    }

    /// One scheduling step. `new_audio` is what the host drained from the
    /// capture queue; `cpu_temp_milli` the platform thermal reading, if
    /// any. Returns the transcription jobs this tick asks for, in order.
    ///
    /// Recording: bank the audio for the session; at a 1200-tick
    /// checkpoint flush the swap-window buffer — through the transcriber
    /// in endurance mode, discarded untranscribed in high performance,
    /// where the checkpoint stands for the periodic storage flush and
    /// runs before this tick's drain; then drain leftover swap audio when
    /// in high performance, and stream (high performance) or bank
    /// (endurance) the new audio. Summarizing: bank everything in the
    /// swap-window buffer; drop and transcribe nothing. Idle: nothing.
    pub fn tick(&mut self, new_audio: &[u32], cpu_temp_milli: Option<i64>) -> (jobs: Vec<AsrJob>)
        requires
            old(self).wf(),
            old(self).tick_count_spec() < u64::MAX,
        ensures
            final(self).wf(),
            final(self).state() == old(self).state(),
            final(self).tick_count_spec() == old(self).tick_count_spec() + 1,
            final(self).transcript() == old(self).transcript(),
            final(self).transcript_max() == old(self).transcript_max(),
            final(self).folder() == old(self).folder(),
            final(self).subject() == old(self).subject(),
            final(self).store_key() == old(self).store_key(),
            final(self).notes() == old(self).notes(),
            final(self).asr_resident() == old(self).asr_resident(),
            final(self).llm_resident() == old(self).llm_resident(),
            final(self).rag_resident() == old(self).rag_resident(),
            // The endurance controller is consulted in `Recording` and on
            // the 300-tick cadence, and is untouched otherwise.
            ({
                let consulted = old(self).state() == EngineState::Recording || (old(self).tick_count_spec() + 1) % 300 == 0;
                let e0 = old(self).endurance_state();
                if consulted {
                    final(self).mode() == decided_mode(e0, cpu_temp_milli) && final(self).endurance_state().battery_milli() == e0.battery_milli() && final(self).endurance_state().simulated() == e0.simulated()
                } else {
                    final(self).endurance_state() == e0
                }
            }),
            // Idle: nothing else moves.
            old(self).state() == EngineState::Idle ==> final(self).pending_audio() == old(self).pending_audio() && final(self).session_audio() == old(self).session_audio() && final(self).accum() == old(self).accum() && jobs@.len() == 0,
            // Summarizing: capture is never dropped; it all goes to the
            // swap-window buffer.
            old(self).state() == EngineState::Summarizing ==> final(self).pending_audio()
                == (if new_audio@.len() > 0 {
                fifo_push(old(self).pending_audio(), new_audio@, AUDIO_BUFFER_CAPACITY as int)
            } else {
                old(self).pending_audio()
            }) && final(self).session_audio() == old(self).session_audio() && final(self).accum()
                == old(self).accum() && jobs@.len() == 0,
            // Recording: the session grows by the new audio and the three
            // buffers step as specified; the emitted jobs are exactly the
            // checkpoint flush, the drain and the live window.
            old(self).state() == EngineState::Recording ==> ({
                let m = decided_mode(old(self).endurance_state(), cpu_temp_milli);
                let checkpoint = (old(self).tick_count_spec() + 1) % 1200 == 0;
                let p0 = old(self).pending_audio();
                let a0 = old(self).accum();
                &&& final(self).session_audio() == old(self).session_audio() + new_audio@
                &&& final(self).pending_audio() == pending_after_live(
                    pending_after_drain(pending_after_checkpoint(p0, checkpoint), m),
                    new_audio@,
                    m,
                    AUDIO_BUFFER_CAPACITY as int,
                )
                &&& final(self).accum() == accum_after(a0, new_audio@, m)
                &&& jobs_view(jobs@) == tick_jobs_spec(p0, a0, new_audio@, m, checkpoint)
            }),
    {
        self.tick_count = self.tick_count + 1;
        let ghost e0 = old(self).endurance_state();
        let ghost m = decided_mode(e0, cpu_temp_milli);
        if self.tick_count % 300 == 0 {
            let _ = self.endurance.check_status(cpu_temp_milli);
            if self.tick_count % 12000 == 0 {
                self.model_manager.force_gc();
            }
        }
        let mut jobs: Vec<AsrJob> = Vec::new();
        match self.state {
            EngineState::Recording => {
                if new_audio.len() > 0 {
                    self.full_session_audio.extend_from_slice(new_audio);
                } else {
                    proof {
                        assert(self.full_session_audio@ =~= old(self).session_audio()
                            + new_audio@);
                    }
                }
                let mode = self.endurance.check_status(cpu_temp_milli);
                proof {
                    assert(mode == m);
                }
                let ghost p0 = old(self).pending_audio();
                let ghost a0 = old(self).accum();
                let ghost j1: Seq<(AsrJobKind, Seq<u32>)> = if (old(self).tick_count_spec() + 1)
                    % 1200 == 0 && m == EnduranceMode::Endurance {
                    seq![(AsrJobKind::CheckpointBatch, p0)]
                } else {
                    Seq::empty()
                };
                let checkpoint = self.tick_count % 1200 == 0;
                if checkpoint {
                    if mode == EnduranceMode::Endurance {
                        let buffered = self.audio_buffer.read_all();
                        let ghost pre_jobs = jobs_view(jobs@);
                        jobs.push(AsrJob { kind: AsrJobKind::CheckpointBatch, samples: buffered });
                        proof {
                            assert(jobs_view(jobs@) =~= pre_jobs.push(
                                (AsrJobKind::CheckpointBatch, p0),
                            ));
                        }
                    }
                    self.audio_buffer.clear();
                }
                proof {
                    assert(jobs_view(jobs@) =~= j1);
                }
                let ghost p1 = pending_after_checkpoint(p0, checkpoint);
                let ghost j2: Seq<(AsrJobKind, Seq<u32>)> = if p1.len() > 0 && m
                    == EnduranceMode::HighPerformance {
                    seq![(AsrJobKind::DrainBuffered, p1)]
                } else {
                    Seq::empty()
                };
                proof {
                    assert(self.audio_buffer.contents() == p1);
                }
                if !self.audio_buffer.is_empty() && mode == EnduranceMode::HighPerformance {
                    let buffered = self.audio_buffer.read_all();
                    let ghost pre_jobs = jobs_view(jobs@);
                    jobs.push(AsrJob { kind: AsrJobKind::DrainBuffered, samples: buffered });
                    proof {
                        assert(jobs_view(jobs@) =~= pre_jobs.push((AsrJobKind::DrainBuffered, p1)));
                    }
                }
                proof {
                    assert(jobs_view(jobs@) =~= j1 + j2);
                }
                let ghost p2 = pending_after_drain(p1, m);
                let ghost j3: Seq<(AsrJobKind, Seq<u32>)> = if live_emitted(a0, new_audio@, m) {
                    seq![(AsrJobKind::LiveSegment, a0 + new_audio@)]
                } else {
                    Seq::empty()
                };
                proof {
                    assert(self.audio_buffer.contents() == p2);
                }
                if new_audio.len() > 0 {
                    if mode == EnduranceMode::HighPerformance {
                        self.transcription_buffer.extend_from_slice(new_audio);
                        if self.transcription_buffer.len() >= 48000 {
                            let window = copy_bytes_u32(self.transcription_buffer.as_slice());
                            self.transcription_buffer.clear();
                            let ghost pre_jobs = jobs_view(jobs@);
                            jobs.push(AsrJob { kind: AsrJobKind::LiveSegment, samples: window });
                            proof {
                                assert(window@ == a0 + new_audio@);
                                assert(jobs_view(jobs@) =~~= pre_jobs.push(
                                    (AsrJobKind::LiveSegment, a0 + new_audio@),
                                ));
                            }
                        }
                    } else {
                        self.audio_buffer.push(new_audio);
                    }
                }
                proof {
                    assert(self.audio_buffer.contents() == pending_after_live(
                        p2,
                        new_audio@,
                        m,
                        AUDIO_BUFFER_CAPACITY as int,
                    ));
                    assert(self.transcription_buffer@ == accum_after(a0, new_audio@, m));
                    assert(jobs_view(jobs@) =~= (j1 + j2) + j3);
                    assert((j1 + j2) + j3 =~= tick_jobs_spec(p0, a0, new_audio@, m, checkpoint));
                }
            },
            EngineState::Summarizing => {
                if new_audio.len() > 0 {
                    self.audio_buffer.push(new_audio);
                }
            },
            EngineState::Idle => {},
        }
        jobs
    }

    /// Hand back a transcription result. Checkpoint and drained batches
    /// are appended whenever non-empty; live segments pass the artifact
    /// and repetition filters first.
    pub fn submit_transcription(&mut self, kind: AsrJobKind, text: &[u8])
        requires
            old(self).wf(),
        ensures
            final(self).wf(),
            final(self).state() == old(self).state(),
            final(self).pending_audio() == old(self).pending_audio(),
            final(self).session_audio() == old(self).session_audio(),
            final(self).accum() == old(self).accum(),
            final(self).tick_count_spec() == old(self).tick_count_spec(),
            final(self).endurance_state() == old(self).endurance_state(),
            final(self).notes() == old(self).notes(),
            final(self).transcript_max() == old(self).transcript_max(),
            (kind == AsrJobKind::CheckpointBatch || kind == AsrJobKind::DrainBuffered) ==> (
            if text@.len() > 0 {
                push_result(
                    old(self).transcript(),
                    text@,
                    old(self).transcript_max(),
                    final(self).transcript(),
                )
            } else {
                final(self).transcript() == old(self).transcript()
            }),
            kind == AsrJobKind::LiveSegment ==> (if live_accepted(old(self).transcript(), text@) {
                push_result(
                    old(self).transcript(),
                    text@,
                    old(self).transcript_max(),
                    final(self).transcript(),
                )
            } else {
                final(self).transcript() == old(self).transcript()
            }),
    {
        match kind {
            AsrJobKind::CheckpointBatch | AsrJobKind::DrainBuffered => {
                if text.len() > 0 {
                    let _ = self.buffer.push_bytes(text);
                }
            },
            AsrJobKind::LiveSegment => {
                let blank: [u8; 13] = [91, 66, 76, 65, 78, 75, 95, 65, 85, 68, 73, 79, 93];
                proof {
                    assert(blank@ =~= blank_marker());
                }
                if text.len() > 0 && !contains_sub(text, blank.as_slice()) {
                    let context = trim_end_bytes(self.buffer.get_context().as_slice());
                    let normalized = trim_bytes(text);
                    if normalized.len() > 0 && !ends_with(
                        context.as_slice(),
                        normalized.as_slice(),
                    ) {
                        let _ = self.buffer.push_bytes(text);
                    }
                }
            },
        }
    }

    /// Read-only copy of the rolling transcript.
    pub fn get_current_transcript(&self) -> (r: Vec<u8>)
        ensures
            r@ == self.transcript(),
    {
        copy_bytes(self.buffer.get_context().as_slice())
    }

    pub fn set_current_folder(&mut self, folder_id: Option<i64>)
        ensures
            final(self).folder() == folder_id,
            final(self).state() == old(self).state(),
            final(self).wf() == old(self).wf(),
            final(self).transcript() == old(self).transcript(),
    {
        self.current_folder_id = folder_id;
    }
}


/// The bytes of "\n\n---\nContext from past notes:\n", opening the
/// retrieved-context block.
pub open spec fn block_header() -> Seq<u8> {
    seq![
        10u8, 10u8, 45u8, 45u8, 45u8, 10u8, 67u8, 111u8, 110u8, 116u8, 101u8, 120u8, 116u8, 32u8,
        102u8, 114u8, 111u8, 109u8, 32u8, 112u8, 97u8, 115u8, 116u8, 32u8, 110u8, 111u8, 116u8,
        101u8, 115u8, 58u8, 10u8,
    ]
}

/// A milli-score rendered as "d.dd" (truncated, not rounded).
pub open spec fn score_fmt(s: int) -> Seq<u8> {
    seq![(48 + s / 1000) as u8, 46u8, (48 + (s / 100) % 10) as u8, (48 + (s / 10) % 10) as u8]
}

/// One retrieved note rendered into the context block:
/// "- [<title>] (Similarity: <score>): <snippet>\n".
pub open spec fn block_entry(title: Seq<u8>, score: int, snippet: Seq<u8>) -> Seq<u8> {
    seq![45u8, 32u8, 91u8] + title + seq![
        93u8, 32u8, 40u8, 83u8, 105u8, 109u8, 105u8, 108u8, 97u8, 114u8, 105u8, 116u8, 121u8,
        58u8, 32u8,
    ] + score_fmt(score) + seq![41u8, 58u8, 32u8] + snippet + seq![10u8]
}

/// What one ranked pair contributes to the context block: its rendered
/// entry when it scores above the threshold and names a live note,
/// nothing otherwise.
pub open spec fn entry_contribution(p: (i64, i64), notes: Map<i64, NoteRow>, key: Seq<u8>) -> Seq<
    u8,
> {
    if p.1 > 400 && notes.contains_key(p.0) && !notes[p.0].4 {
        block_entry(
            notes[p.0].0,
            p.1 as int,
            crate::textutil::first_two_lines_spec(content_plain(key, notes[p.0].1)),
        )
    } else {
        Seq::empty()
    }
}

/// The rendered entries of a ranking, in order: exactly the qualifying
/// live notes, each once.
pub open spec fn entries_exact(
    ranked: Seq<(i64, i64)>,
    notes: Map<i64, NoteRow>,
    key: Seq<u8>,
) -> Seq<u8>
    decreases ranked.len(),
{
    if ranked.len() == 0 {
        Seq::empty()
    } else {
        entry_contribution(ranked.first(), notes, key) + entries_exact(
            ranked.drop_first(),
            notes,
            key,
        )
    }
}

/// The context block is the header plus exactly the entries of the top
/// three ranked notes that score strictly above the 0.4 threshold and are
/// live: every qualifying note appears, in rank order, and nothing else
/// does. An empty block stands only for a store that held no embeddings
/// or could not be read during the swap.
pub open spec fn block_wf(
    block: Seq<u8>,
    notes: Map<i64, NoteRow>,
    embeddings: Map<i64, Seq<i64>>,
    key: Seq<u8>,
    query: Seq<i64>,
) -> bool {
    ||| block.len() == 0
    ||| exists|ranked: Seq<(i64, i64)>|
        #[trigger] crate::db::ranking_prefix(ranked, embeddings, query, 3) && ranked.len() > 0
            && block == block_header() + entries_exact(ranked, notes, key)
}

impl Engine {
    /// Unload the transcriber and bring up the summarizer and embedder:
    /// the first half of the swap protocol. Capture continues; ticks in
    /// `Summarizing` bank audio in the swap-window buffer.
    pub fn begin_summary(&mut self) -> (r: Result<(), EngineError>)
        requires
            old(self).wf(),
        ensures
            final(self).wf(),
            ok_transition(old(self).state(), final(self).state()),
            old(self).state() != EngineState::Recording ==> r == Err::<(), EngineError>(
                EngineError::NotRecording,
            ) && *final(self) == *old(self),
            old(self).state() == EngineState::Recording ==> r is Ok && final(self).state()
                == EngineState::Summarizing && !final(self).asr_resident() && final(self).llm_resident() && final(self).rag_resident() && final(self).transcript() == old(self).transcript() && final(self).pending_audio() == old(self).pending_audio() && final(self).session_audio() == old(self).session_audio() && final(self).accum() == old(self).accum() && Self::same_session_plumbing(*old(self), *final(self)) && final(self).notes() == old(self).notes() && final(self).folders() == old(self).folders() && final(self).attachments() == old(self).attachments() && final(self).embeddings() == old(self).embeddings(),
    {
        if self.state != EngineState::Recording {
            return Err(EngineError::NotRecording);
        }
        self.model_manager.unload_asr();
        self.state = EngineState::Summarizing;
        self.model_manager.load_llm();
        self.model_manager.load_rag();
        Ok(())
    }

    /// Build the retrieved-context block for the transcript's embedding:
    /// the top three prior notes scoring above the threshold, rendered in
    /// rank order. A store failure mid-build discards the block (the
    /// summary proceeds without context), never a single entry.
    fn build_context_block(&self, query: &Vec<i64>) -> (r: Vec<u8>)
        requires
            self.wf(),
            crate::rag::embedding_wf(query@),
        ensures
            block_wf(r@, self.notes(), self.embeddings(), self.store_key(), query@),
            self.embeddings().dom().len() == 0 ==> r@.len() == 0,
    {
        let mut block: Vec<u8> = Vec::new();
        let similar = match self.database.search_similar_notes(query.as_slice(), 3) {
            Ok(v) => v,
            Err(_) => {
                return block;
            },
        };
        if similar.len() == 0 {
            return block;
        }
        proof {
            let full = choose|full: Seq<(i64, i64)>|
                {
                    &&& #[trigger] crate::rag::sorted_desc(full)
                    &&& full.len() == self.embeddings().dom().len()
                    &&& similar@ == (if 3 <= full.len() {
                        full.take(3)
                    } else {
                        full
                    })
                    &&& forall|i: int|
                        0 <= i < full.len() ==> self.embeddings().contains_key(#[trigger] full[i].0)
                            && full[i].1 as int == crate::db::rank_score(
                            query@,
                            self.embeddings()[full[i].0],
                        )
                    &&& forall|id: i64|
                        self.embeddings().contains_key(id) ==> exists|i: int|
                            0 <= i < full.len() && (#[trigger] full[i]).0 == id
                };
            assert(forall|i2: int| 0 <= i2 < similar@.len() ==> #[trigger] similar@[i2] == full[i2]);
        }
        let hdr: [u8; 31] = [
            10, 10, 45, 45, 45, 10, 67, 111, 110, 116, 101, 120, 116, 32, 102, 114, 111, 109, 32,
            112, 97, 115, 116, 32, 110, 111, 116, 101, 115, 58, 10,
        ];
        proof {
            assert(hdr@ =~= block_header());
            assert(similar@.take(0) =~= Seq::<(i64, i64)>::empty());
        }
        block.extend_from_slice(hdr.as_slice());
        let n = similar.len();
        let mut i: usize = 0;
        while i < n
            invariant
                self.wf(),
                n == similar@.len(),
                0 <= i <= n,
                forall|i2: int|
                    0 <= i2 < n ==> self.embeddings().contains_key(#[trigger] similar@[i2].0)
                        && similar@[i2].1 as int == crate::db::rank_score(
                        query@,
                        self.embeddings()[similar@[i2].0],
                    ),
                block@ == block_header() + entries_exact(
                    similar@.take(i as int),
                    self.notes(),
                    self.store_key(),
                ),
            decreases n - i,
        {
            let ghost pre_done = similar@.take(i as int);
            proof {
                assert(similar@.take(i + 1) =~= pre_done.push(similar@[i as int]));
                lemma_entries_exact_push(
                    pre_done,
                    similar@[i as int],
                    self.notes(),
                    self.store_key(),
                );
            }
            let note_id = similar[i].0;
            let score = similar[i].1;
            if score > 400 {
                match self.database.get_note(note_id) {
                    Ok(note) => {
                        let ghost pre_block = block@;
                        let open_b: [u8; 3] = [45, 32, 91];
                        let mid_b: [u8; 15] = [
                            93, 32, 40, 83, 105, 109, 105, 108, 97, 114, 105, 116, 121, 58, 32,
                        ];
                        let close_b: [u8; 3] = [41, 58, 32];
                        block.extend_from_slice(open_b.as_slice());
                        block.extend_from_slice(note.1.as_slice());
                        block.extend_from_slice(mid_b.as_slice());
                        let fmt = render_score(score);
                        block.extend_from_slice(fmt.as_slice());
                        block.extend_from_slice(close_b.as_slice());
                        let snippet = crate::textutil::first_two_lines(note.2.as_slice());
                        block.extend_from_slice(snippet.as_slice());
                        block.push(10);
                        proof {
                            assert(block@ =~= pre_block + entry_contribution(
                                similar@[i as int],
                                self.notes(),
                                self.store_key(),
                            ));
                        }
                    },
                    Err(e) => {
                        match e {
                            StoreError::NotFound => {
                                proof {
                                    assert(entry_contribution(
                                        similar@[i as int],
                                        self.notes(),
                                        self.store_key(),
                                    ) =~= Seq::<u8>::empty());
                                    assert(block@ =~= block_header() + entries_exact(
                                        similar@.take(i + 1),
                                        self.notes(),
                                        self.store_key(),
                                    ));
                                }
                            },
                            _ => {
                                // The store refused a read mid-build:
                                // surrender the block rather than hand the
                                // summarizer a partial one.
                                let empty_block: Vec<u8> = Vec::new();
                                proof {
                                    assert(empty_block@ =~= Seq::<u8>::empty());
                                }
                                return empty_block;
                            },
                        }
                    },
                }
            } else {
                proof {
                    assert(entry_contribution(
                        similar@[i as int],
                        self.notes(),
                        self.store_key(),
                    ) =~= Seq::<u8>::empty());
                    assert(block@ =~= block_header() + entries_exact(
                        similar@.take(i + 1),
                        self.notes(),
                        self.store_key(),
                    ));
                }
            }
            i += 1;
        }
        proof {
            assert(similar@.take(n as int) =~= similar@);
            assert(crate::db::ranking_prefix(similar@, self.embeddings(), query@, 3));
            assert(block_wf(
                block@,
                self.notes(),
                self.embeddings(),
                self.store_key(),
                query@,
            )) by {
                assert(block@ == block_header() + entries_exact(
                    similar@,
                    self.notes(),
                    self.store_key(),
                ));
            }
        }
        block
    }
}

/// Appending one ranked pair extends the rendered entries by exactly its
/// contribution.
proof fn lemma_entries_exact_push(
    ranked: Seq<(i64, i64)>,
    x: (i64, i64),
    notes: Map<i64, NoteRow>,
    key: Seq<u8>,
)
    ensures
        entries_exact(ranked.push(x), notes, key) == entries_exact(ranked, notes, key)
            + entry_contribution(x, notes, key),
    decreases ranked.len(),
{
    let entry_x = entry_contribution(x, notes, key);
    if ranked.len() == 0 {
        assert(ranked.push(x).first() == x);
        assert(ranked.push(x).drop_first() =~= Seq::<(i64, i64)>::empty());
        assert(entries_exact(Seq::<(i64, i64)>::empty(), notes, key) =~= Seq::<u8>::empty());
        assert(entries_exact(ranked.push(x), notes, key) =~= entry_x);
        assert(entries_exact(ranked, notes, key) + entry_x =~= entry_x);
    } else {
        assert(ranked.push(x).drop_first() =~= ranked.drop_first().push(x));
        assert(ranked.push(x).first() == ranked.first());
        lemma_entries_exact_push(ranked.drop_first(), x, notes, key);
        let entry_h = entry_contribution(ranked.first(), notes, key);
        assert(entries_exact(ranked.push(x), notes, key) == entry_h + (entries_exact(
            ranked.drop_first(),
            notes,
            key,
        ) + entry_x));
        assert(entries_exact(ranked, notes, key) + entry_x =~= entry_h + (entries_exact(
            ranked.drop_first(),
            notes,
            key,
        ) + entry_x));
    }
}

/// Render a milli-score as "d.dd", truncated.
fn render_score(s: i64) -> (r: Vec<u8>)
    requires
        0 <= s <= 1000,
    ensures
        r@ == score_fmt(s as int),
{
    let mut r: Vec<u8> = Vec::new();
    r.push(48 + (s / 1000) as u8);
    r.push(46);
    r.push(48 + ((s / 100) % 10) as u8);
    r.push(48 + ((s / 10) % 10) as u8);
    proof {
        assert(r@ =~= score_fmt(s as int));
    }
    r
}


impl Engine {
    /// The second half of the swap protocol: detect the language, enrich
    /// the transcript with retrieved context, summarize, persist the note
    /// and the transcript embedding, release the summarizer and embedder,
    /// reload the transcriber and resume `Recording`.
    ///
    /// A store failure is absorbed: `note_id` comes back `None`, the
    /// session audio is retained, and recording resumes regardless.
    pub fn finish_summary(&mut self, append_to: Option<i64>) -> (r: Result<
        SummaryOutcome,
        EngineError,
    >)
        requires
            old(self).wf(),
        ensures
            final(self).wf(),
            ok_transition(old(self).state(), final(self).state()),
            old(self).state() != EngineState::Summarizing ==> (r matches Err(e) && e
                == EngineError::NotRecording && *final(self) == *old(self)),
            old(self).state() == EngineState::Summarizing ==> (r matches Ok(o) && {
                &&& final(self).state() == EngineState::Recording
                &&& final(self).asr_resident() && !final(self).llm_resident() && !final(self).rag_resident()
                &&& final(self).transcript() == old(self).transcript()
                &&& final(self).pending_audio() == old(self).pending_audio()
                &&& final(self).accum() == old(self).accum()
                &&& Self::same_session_plumbing(*old(self), *final(self))
                &&& final(self).folders() == old(self).folders()
                &&& final(self).attachments() == old(self).attachments()
                &&& o.language@ == detect_spec(old(self).transcript())
                // The summary is the summarizer's exact output over the
                // transcript plus a sound retrieved-context block.
                &&& old(self).llm_resident() && old(self).rag_resident() ==> {
                    &&& o.summary@ == summarize_spec(old(self).transcript() + o.context_block@)
                    &&& block_wf(
                        o.context_block@,
                        old(self).notes(),
                        old(self).embeddings(),
                        old(self).store_key(),
                        embed_spec(old(self).transcript()),
                    )
                    &&& old(self).embeddings().dom().len() == 0 ==> o.context_block@.len() == 0
                }
                &&& (old(self).llm_resident() && !old(self).rag_resident()) ==> o.summary@
                    == summarize_spec(old(self).transcript()) && o.context_block@.len() == 0
                &&& !old(self).llm_resident() ==> o.summary@ == Seq::<u8>::empty()
                // Persistence: a fresh note holds exactly the summary,
                // encrypted; appending extends the existing content.
                &&& o.note_id matches Some(nid) ==> final(self).notes().contains_key(nid)
                &&& o.note_id is None ==> final(self).notes() == old(self).notes()
                &&& append_to matches Some(aid) ==> (o.note_id == Some(aid) || o.note_id is None)
                &&& append_to is None ==> (o.note_id matches Some(nid) ==> exists|
                    blob: Seq<u8>,
                    tsr: i64,
                    tst: i64,
                |
                    sealed_layout(old(self).store_key(), blob, o.summary@) && final(self).notes()
                        == old(self).notes().insert(
                        nid,
                        (note_title_spec(tst as int), blob, tsr, tsr, false, old(self).folder()),
                    ))
                &&& append_to matches Some(aid) ==> (o.note_id == Some(aid) ==> (final(self).notes()
                    == old(self).notes() || exists|blob: Seq<u8>, tsr: i64|
                    old(self).notes().contains_key(aid) && sealed_layout(
                        old(self).store_key(),
                        blob,
                        content_plain(old(self).store_key(), old(self).notes()[aid].1)
                            + append_separator() + o.summary@,
                    ) && final(self).notes() == old(self).notes().insert(
                        aid,
                        (
                            old(self).notes()[aid].0,
                            blob,
                            old(self).notes()[aid].2,
                            tsr,
                            old(self).notes()[aid].4,
                            old(self).notes()[aid].5,
                        ),
                    )))
                // Session audio is handed out exactly when a note was
                // saved, and retained otherwise.
                &&& o.note_id is Some ==> o.session_audio@ == old(self).session_audio() && final(self).session_audio() == Seq::<u32>::empty()
                &&& o.note_id is None ==> o.session_audio@.len() == 0 && final(self).session_audio()
                    == old(self).session_audio()
                // The transcript's embedding is saved against the note,
                // unless the store refused it.
                &&& (final(self).embeddings() == old(self).embeddings() || (
                o.note_id matches Some(nid) && final(self).embeddings() == old(self).embeddings().insert(nid, embed_spec(old(self).transcript()))))
            }),
    {
        if self.state != EngineState::Summarizing {
            return Err(EngineError::NotRecording);
        }
        let context = copy_bytes(self.buffer.get_context().as_slice());
        let language = self.lang_detector.detect_bytes(context.as_slice());
        let mut context_block: Vec<u8> = Vec::new();
        match self.model_manager.embed(context.as_slice()) {
            Some(query) => {
                context_block = self.build_context_block(&query);
            },
            None => {},
        }
        let mut final_input = copy_bytes(context.as_slice());
        final_input.extend_from_slice(context_block.as_slice());
        proof {
            assert(final_input@ =~= old(self).transcript() + context_block@);
        }
        let summary = self.model_manager.summarize(final_input.as_slice());
        proof {
            if context_block@.len() == 0 {
                assert(old(self).transcript() + context_block@ =~= old(self).transcript());
            }
        }
        self.model_manager.unload_llm();
        let note_id: Option<i64> = match append_to {
            Some(aid) => {
                match self.database.get_note(aid) {
                    Ok(existing) => {
                        let sep: [u8; 7] = [10, 10, 45, 45, 45, 10, 10];
                        proof {
                            assert(sep@ =~= append_separator());
                        }
                        let mut new_content = copy_bytes(existing.2.as_slice());
                        new_content.extend_from_slice(sep.as_slice());
                        new_content.extend_from_slice(summary.as_slice());
                        proof {
                            assert(new_content@ =~= content_plain(
                                old(self).store_key(),
                                old(self).notes()[aid].1,
                            ) + append_separator() + summary@);
                        }
                        let _ = self.database.update_note(
                            aid,
                            existing.1.as_slice(),
                            new_content.as_slice(),
                        );
                        Some(aid)
                    },
                    Err(_) => None,
                }
            },
            None => {
                let ts = now_ts();
                let prefix: [u8; 5] = [78, 111, 116, 101, 32];
                let mut title = copy_bytes(prefix.as_slice());
                let mut digits = i64_to_dec(ts);
                title.append(&mut digits);
                proof {
                    assert(title@ =~= note_title_spec(ts as int));
                }
                let ghost pre_notes = self.notes();
                match self.database.add_note(
                    title.as_slice(),
                    summary.as_slice(),
                    self.current_folder_id,
                ) {
                    Ok(id) => {
                        proof {
                            let (b, t) = choose|b: Seq<u8>, t: i64|
                                sealed_layout(self.store_key(), b, summary@) && self.notes()
                                    == pre_notes.insert(
                                    id,
                                    (title@, b, t, t, false, old(self).folder()),
                                );
                            assert(exists|blob: Seq<u8>, tsr: i64, tst: i64|
                                sealed_layout(old(self).store_key(), blob, summary@)
                                    && self.notes() == old(self).notes().insert(
                                    id,
                                    (
                                        note_title_spec(tst as int),
                                        blob,
                                        tsr,
                                        tsr,
                                        false,
                                        old(self).folder(),
                                    ),
                                )) by {
                                assert(sealed_layout(old(self).store_key(), b, summary@)
                                    && self.notes() == old(self).notes().insert(
                                    id,
                                    (
                                        note_title_spec(ts as int),
                                        b,
                                        t,
                                        t,
                                        false,
                                        old(self).folder(),
                                    ),
                                ));
                            }
                        }
                        Some(id)
                    },
                    Err(_) => None,
                }
            },
        };
        let mut session_audio: Vec<u32> = Vec::new();
        if let Some(nid) = note_id {
            match self.model_manager.embed(context.as_slice()) {
                Some(emb) => {
                    let _ = self.database.save_embedding(nid, &emb);
                },
                None => {},
            }
            session_audio = copy_bytes_u32(self.full_session_audio.as_slice());
            self.full_session_audio.clear();
            proof {
                assert(self.full_session_audio@ =~= Seq::<u32>::empty());
            }
        }
        self.model_manager.unload_rag();
        self.model_manager.load_asr();
        self.state = EngineState::Recording;
        Ok(SummaryOutcome { summary, language, note_id, session_audio, context_block })
    }

    /// The whole swap: stop capture-to-transcript, summarize, persist and
    /// resume recording. From `Idle` there is nothing to stop.
    pub fn stop_recording_and_summarize(&mut self, append_to: Option<i64>) -> (r: Result<
        SummaryOutcome,
        EngineError,
    >)
        requires
            old(self).wf(),
        ensures
            final(self).wf(),
            ok_transition(old(self).state(), final(self).state()),
            old(self).state() == EngineState::Idle ==> (r matches Err(e) && e
                == EngineError::NotRecording && *final(self) == *old(self)),
            old(self).state() != EngineState::Idle ==> (r matches Ok(o) && {
                &&& final(self).state() == EngineState::Recording
                &&& final(self).asr_resident() && !final(self).llm_resident() && !final(self).rag_resident()
                &&& final(self).transcript() == old(self).transcript()
                &&& final(self).pending_audio() == old(self).pending_audio()
                &&& final(self).accum() == old(self).accum()
                &&& Self::same_session_plumbing(*old(self), *final(self))
                &&& o.language@ == detect_spec(old(self).transcript())
                &&& final(self).folders() == old(self).folders()
                &&& final(self).attachments() == old(self).attachments()
                &&& o.note_id matches Some(nid) ==> final(self).notes().contains_key(nid)
                &&& o.note_id is None ==> final(self).notes() == old(self).notes()
                &&& append_to matches Some(aid) ==> (o.note_id == Some(aid) || o.note_id is None)
                &&& append_to is None ==> (o.note_id matches Some(nid) ==> exists|
                    blob: Seq<u8>,
                    tsr: i64,
                    tst: i64,
                |
                    sealed_layout(old(self).store_key(), blob, o.summary@) && final(self).notes()
                        == old(self).notes().insert(
                        nid,
                        (note_title_spec(tst as int), blob, tsr, tsr, false, old(self).folder()),
                    ))
                &&& append_to matches Some(aid) ==> (o.note_id == Some(aid) ==> (final(self).notes()
                    == old(self).notes() || exists|blob: Seq<u8>, tsr: i64|
                    old(self).notes().contains_key(aid) && sealed_layout(
                        old(self).store_key(),
                        blob,
                        content_plain(old(self).store_key(), old(self).notes()[aid].1)
                            + append_separator() + o.summary@,
                    ) && final(self).notes() == old(self).notes().insert(
                        aid,
                        (
                            old(self).notes()[aid].0,
                            blob,
                            old(self).notes()[aid].2,
                            tsr,
                            old(self).notes()[aid].4,
                            old(self).notes()[aid].5,
                        ),
                    )))
                &&& (final(self).embeddings() == old(self).embeddings() || (
                o.note_id matches Some(nid2) && final(self).embeddings() == old(
                    self,
                ).embeddings().insert(nid2, embed_spec(old(self).transcript()))))
                &&& o.note_id is Some ==> o.session_audio@ == old(self).session_audio() && final(self).session_audio() == Seq::<u32>::empty()
                &&& o.note_id is None ==> o.session_audio@.len() == 0 && final(self).session_audio()
                    == old(self).session_audio()
                &&& old(self).state() == EngineState::Recording ==> {
                    &&& o.summary@ == summarize_spec(old(self).transcript() + o.context_block@)
                    &&& block_wf(
                        o.context_block@,
                        old(self).notes(),
                        old(self).embeddings(),
                        old(self).store_key(),
                        embed_spec(old(self).transcript()),
                    )
                    &&& old(self).embeddings().dom().len() == 0 ==> o.context_block@.len() == 0
                }
            }),
    {
        if self.state == EngineState::Idle {
            return Err(EngineError::NotRecording);
        }
        if self.state == EngineState::Recording {
            let _ = self.begin_summary();
        }
        match self.finish_summary(append_to) {
            Ok(o) => Ok(o),
            Err(e) => Err(e),
        }
    }
}


/// The repetition law: once a live segment has been appended without
/// overflow eviction, the identical segment is rejected by the filter, so
/// a run of duplicates grows the transcript at most once.
pub proof fn lemma_live_dedup(transcript: Seq<u8>, text: Seq<u8>, max: int, new_t: Seq<u8>)
    requires
        push_result(transcript, text, max, new_t),
        crate::text::appended(transcript, text).len() <= max,
        trim_seq(text).len() > 0,
    ensures
        !live_accepted(new_t, text),
{
    assert(new_t == transcript + text + seq![32u8]);
    let tsp = text + seq![32u8];
    assert(tsp.last() == 32u8);
    assert(tsp.drop_last() =~= text);
    assert(trim_end_seq(tsp) == trim_end_seq(text));
    if trim_end_seq(text).len() == 0 {
        crate::textutil::lemma_trim_end_empty_all_ws(text);
        crate::textutil::lemma_trim_start_all_ws(text);
        assert(trim_start_seq(text).len() == 0);
        assert(trim_seq(text).len() == 0);
    }
    crate::textutil::lemma_trim_end_concat(transcript, tsp);
    assert(transcript + tsp =~= new_t);
    assert(trim_end_seq(new_t) == transcript + trim_end_seq(text));
    crate::textutil::lemma_trim_suffix(text);
    crate::textutil::lemma_ends_with_prepend(transcript, trim_end_seq(text), trim_seq(text));
    assert(ends_with_seq(trim_end_seq(new_t), trim_seq(text)));
}


impl Engine {
    /// All store content maps and the key are unchanged.
    pub open spec fn same_store(pre: Self, post: Self) -> bool {
        &&& post.notes() == pre.notes()
        &&& post.folders() == pre.folders()
        &&& post.attachments() == pre.attachments()
        &&& post.embeddings() == pre.embeddings()
        &&& post.store_key() == pre.store_key()
    }

    /// Everything outside the store is unchanged.
    pub open spec fn same_non_store(pre: Self, post: Self) -> bool {
        &&& post.state() == pre.state()
        &&& post.transcript() == pre.transcript()
        &&& post.pending_audio() == pre.pending_audio()
        &&& post.session_audio() == pre.session_audio()
        &&& post.accum() == pre.accum()
        &&& post.tick_count_spec() == pre.tick_count_spec()
        &&& post.endurance_state() == pre.endurance_state()
        &&& post.folder() == pre.folder()
        &&& post.subject() == pre.subject()
        &&& post.asr_resident() == pre.asr_resident()
        &&& post.llm_resident() == pre.llm_resident()
        &&& post.rag_resident() == pre.rag_resident()
    }

    /// Create a folder in the store.
    pub fn create_folder(&mut self, name: &[u8]) -> (r: Result<i64, EngineError>)
        requires
            old(self).wf(),
        ensures
            final(self).wf(),
            Self::same_non_store(*old(self), *final(self)),
            final(self).notes() == old(self).notes(),
            final(self).attachments() == old(self).attachments(),
            final(self).embeddings() == old(self).embeddings(),
            final(self).store_key() == old(self).store_key(),
            r matches Ok(id) ==> !old(self).folders().contains_key(id) && exists|ts: i64|
                final(self).folders() == old(self).folders().insert(id, (name@, ts)),
            r matches Err(e) ==> e == EngineError::Store && final(self).folders() == old(
                self,
            ).folders(),
    {
        match self.database.create_folder(name) {
            Ok(id) => {
                proof {
                    let t = choose|t: i64|
                        self.folders() == old(self).folders().insert(id, (name@, t));
                    assert(exists|ts: i64|
                        self.folders() == old(self).folders().insert(id, (name@, ts))) by {
                        assert(self.folders() == old(self).folders().insert(id, (name@, t)));
                    }
                }
                Ok(id)
            },
            Err(_) => Err(EngineError::Store),
        }
    }

    /// All folders, sorted by name.
    pub fn get_folders(&self) -> (r: Result<Vec<(i64, Vec<u8>)>, EngineError>)
        requires
            self.wf(),
        ensures
            r matches Ok(v) ==> forall|i: int|
                0 <= i < v@.len() ==> self.folders().contains_key(#[trigger] v@[i].0)
                    && self.folders()[v@[i].0].0 == v@[i].1@,
            r matches Ok(v) ==> crate::db::covers_folders(self.folders(), v@),
            r matches Err(e) ==> e == EngineError::Store,
    {
        match self.database.get_folders() {
            Ok(v) => Ok(v),
            Err(_) => Err(EngineError::Store),
        }
    }

    /// The notes of a folder, newest first, content decrypted.
    pub fn get_notes_by_folder(&self, folder_id: i64) -> (r: Result<
        Vec<(i64, Vec<u8>, Vec<u8>, i64)>,
        EngineError,
    >)
        requires
            self.wf(),
        ensures
            r matches Ok(v) ==> forall|i: int|
                0 <= i < v@.len() ==> self.notes().contains_key(#[trigger] v@[i].0)
                    && self.notes()[v@[i].0].5 == Some(folder_id) && self.notes()[v@[i].0].0
                    == v@[i].1@ && v@[i].2@ == content_plain(
                    self.store_key(),
                    self.notes()[v@[i].0].1,
                ) && self.notes()[v@[i].0].3 == v@[i].3,
            r matches Ok(v) ==> crate::db::covers_folder_notes(self.notes(), folder_id, v@),
            r matches Err(e) ==> e == EngineError::Store,
    {
        match self.database.get_notes_by_folder(folder_id) {
            Ok(v) => Ok(v),
            Err(_) => Err(EngineError::Store),
        }
    }

    /// Insert a note with encrypted content.
    pub fn add_note(&mut self, title: &[u8], content: &[u8], folder_id: Option<i64>) -> (r: Result<
        i64,
        EngineError,
    >)
        requires
            old(self).wf(),
        ensures
            final(self).wf(),
            Self::same_non_store(*old(self), *final(self)),
            final(self).folders() == old(self).folders(),
            final(self).attachments() == old(self).attachments(),
            final(self).embeddings() == old(self).embeddings(),
            final(self).store_key() == old(self).store_key(),
            r matches Ok(id) ==> !old(self).notes().contains_key(id) && exists|
                blob: Seq<u8>,
                ts: i64,
            |
                sealed_layout(old(self).store_key(), blob, content@) && final(self).notes() == old(
                    self,
                ).notes().insert(id, (title@, blob, ts, ts, false, folder_id)),
            r matches Err(e) ==> e == EngineError::Store && final(self).notes() == old(
                self,
            ).notes(),
    {
        match self.database.add_note(title, content, folder_id) {
            Ok(id) => {
                proof {
                    let (b, t) = choose|b: Seq<u8>, t: i64|
                        sealed_layout(old(self).store_key(), b, content@) && self.notes() == old(
                            self,
                        ).notes().insert(id, (title@, b, t, t, false, folder_id));
                    assert(exists|blob: Seq<u8>, ts: i64|
                        sealed_layout(old(self).store_key(), blob, content@) && self.notes()
                            == old(self).notes().insert(
                            id,
                            (title@, blob, ts, ts, false, folder_id),
                        )) by {
                        assert(sealed_layout(old(self).store_key(), b, content@) && self.notes()
                            == old(self).notes().insert(id, (title@, b, t, t, false, folder_id)));
                    }
                }
                Ok(id)
            },
            Err(_) => Err(EngineError::Store),
        }
    }

    /// Re-title and re-encrypt a note.
    pub fn update_note(&mut self, note_id: i64, title: &[u8], content: &[u8]) -> (r: Result<
        (),
        EngineError,
    >)
        requires
            old(self).wf(),
        ensures
            final(self).wf(),
            Self::same_non_store(*old(self), *final(self)),
            final(self).folders() == old(self).folders(),
            final(self).attachments() == old(self).attachments(),
            final(self).embeddings() == old(self).embeddings(),
            final(self).store_key() == old(self).store_key(),
            r matches Ok(u) ==> (old(self).notes().contains_key(note_id) ==> exists|
                blob: Seq<u8>,
                ts: i64,
            |
                sealed_layout(old(self).store_key(), blob, content@) && final(self).notes() == old(
                    self,
                ).notes().insert(
                    note_id,
                    (
                        title@,
                        blob,
                        old(self).notes()[note_id].2,
                        ts,
                        old(self).notes()[note_id].4,
                        old(self).notes()[note_id].5,
                    ),
                )) && (!old(self).notes().contains_key(note_id) ==> final(self).notes() == old(
                self,
            ).notes()),
            r matches Err(e) ==> e == EngineError::Store && final(self).notes() == old(
                self,
            ).notes(),
    {
        match self.database.update_note(note_id, title, content) {
            Ok(()) => Ok(()),
            Err(_) => Err(EngineError::Store),
        }
    }

    /// Soft-delete a note.
    pub fn delete_note(&mut self, note_id: i64) -> (r: Result<(), EngineError>)
        requires
            old(self).wf(),
        ensures
            final(self).wf(),
            Self::same_non_store(*old(self), *final(self)),
            final(self).folders() == old(self).folders(),
            final(self).attachments() == old(self).attachments(),
            final(self).embeddings() == old(self).embeddings(),
            final(self).store_key() == old(self).store_key(),
            r matches Ok(u) ==> (old(self).notes().contains_key(note_id) ==> exists|ts: i64|
                final(self).notes() == old(self).notes().insert(
                    note_id,
                    (
                        old(self).notes()[note_id].0,
                        old(self).notes()[note_id].1,
                        old(self).notes()[note_id].2,
                        ts,
                        true,
                        old(self).notes()[note_id].5,
                    ),
                )) && (!old(self).notes().contains_key(note_id) ==> final(self).notes() == old(
                self,
            ).notes()),
            r matches Err(e) ==> e == EngineError::Store && final(self).notes() == old(
                self,
            ).notes(),
    {
        match self.database.delete_note(note_id) {
            Ok(()) => Ok(()),
            Err(_) => Err(EngineError::Store),
        }
    }

    /// Fetch a live note with decrypted content.
    pub fn get_note(&self, note_id: i64) -> (r: Result<(i64, Vec<u8>, Vec<u8>, i64), EngineError>)
        requires
            self.wf(),
        ensures
            r matches Ok(v) ==> self.notes().contains_key(note_id) && !self.notes()[note_id].4
                && v.0 == note_id && v.1@ == self.notes()[note_id].0 && v.2@ == content_plain(
                self.store_key(),
                self.notes()[note_id].1,
            ) && v.3 == self.notes()[note_id].3,
            r matches Err(e) ==> e == EngineError::Store,
    {
        match self.database.get_note(note_id) {
            Ok(v) => Ok(v),
            Err(_) => Err(EngineError::Store),
        }
    }

    /// Attach a file record to a note.
    pub fn add_attachment(&mut self, note_id: i64, file_type: &[u8], file_path: &[u8]) -> (r:
        Result<i64, EngineError>)
        requires
            old(self).wf(),
        ensures
            final(self).wf(),
            Self::same_non_store(*old(self), *final(self)),
            final(self).notes() == old(self).notes(),
            final(self).folders() == old(self).folders(),
            final(self).embeddings() == old(self).embeddings(),
            final(self).store_key() == old(self).store_key(),
            r matches Ok(id) ==> !old(self).attachments().contains_key(id) && exists|
                ts: i64,
            |
                final(self).attachments() == old(self).attachments().insert(
                    id,
                    (note_id, file_type@, file_path@, ts),
                ),
            r matches Err(e) ==> e == EngineError::Store && final(self).attachments() == old(
                self,
            ).attachments(),
    {
        match self.database.add_attachment(note_id, file_type, file_path) {
            Ok(id) => {
                proof {
                    let t = choose|t: i64|
                        self.attachments() == old(self).attachments().insert(
                            id,
                            (note_id, file_type@, file_path@, t),
                        );
                    assert(exists|ts: i64|
                        self.attachments() == old(self).attachments().insert(
                            id,
                            (note_id, file_type@, file_path@, ts),
                        )) by {
                        assert(self.attachments() == old(self).attachments().insert(
                            id,
                            (note_id, file_type@, file_path@, t),
                        ));
                    }
                }
                Ok(id)
            },
            Err(_) => Err(EngineError::Store),
        }
    }

    /// The attachments of a note.
    pub fn get_attachments(&self, note_id: i64) -> (r: Result<
        Vec<(i64, Vec<u8>, Vec<u8>)>,
        EngineError,
    >)
        requires
            self.wf(),
        ensures
            r matches Ok(v) ==> forall|i: int|
                0 <= i < v@.len() ==> self.attachments().contains_key(#[trigger] v@[i].0)
                    && self.attachments()[v@[i].0].0 == note_id && self.attachments()[v@[i].0].1
                    == v@[i].1@ && self.attachments()[v@[i].0].2 == v@[i].2@,
            r matches Ok(v) ==> crate::db::covers_note_attachments(self.attachments(), note_id, v@),
            r matches Err(e) ==> e == EngineError::Store,
    {
        match self.database.get_attachments(note_id) {
            Ok(v) => Ok(v),
            Err(_) => Err(EngineError::Store),
        }
    }

    /// Semantic search: embed the query, rank every stored embedding
    /// against it and fetch the ten best-ranked notes that are live, in
    /// rank order, with decrypted content. A store failure surfaces as an
    /// error. As in the recording pipeline, the embedder evicts a
    /// resident transcriber and is released afterwards.
    pub fn search_notes(&mut self, query: &[u8]) -> (r: Result<
        Vec<(i64, Vec<u8>, Vec<u8>, i64)>,
        EngineError,
    >)
        requires
            old(self).wf(),
        ensures
            final(self).wf(),
            final(self).state() == old(self).state(),
            final(self).transcript() == old(self).transcript(),
            !final(self).asr_resident() && !final(self).rag_resident(),
            final(self).llm_resident() == old(self).llm_resident(),
            Self::same_store(*old(self), *final(self)),
            r matches Ok(v) ==> exists|ranked: Seq<(i64, i64)>|
                #[trigger] crate::db::ranking_prefix(
                    ranked,
                    old(self).embeddings(),
                    embed_spec(query@),
                    10,
                ) && note_rows_view(v@) == live_fetch(
                    ranked,
                    old(self).notes(),
                    old(self).store_key(),
                ),
            r matches Err(e) ==> e == EngineError::Store,
    {
        self.model_manager.load_rag();
        let mut results: Vec<(i64, Vec<u8>, Vec<u8>, i64)> = Vec::new();
        let embedding = match self.model_manager.embed(query) {
            Some(v) => v,
            None => {
                // Unreachable: the embedder was just loaded.
                self.model_manager.unload_rag();
                return Err(EngineError::Store);
            },
        };
        let similar = match self.database.search_similar_notes(embedding.as_slice(), 10) {
            Ok(v) => v,
            Err(_) => {
                self.model_manager.unload_rag();
                return Err(EngineError::Store);
            },
        };
        proof {
            assert(note_rows_view(results@) =~= Seq::<(i64, Seq<u8>, Seq<u8>, i64)>::empty());
            assert(similar@.take(0) =~= Seq::<(i64, i64)>::empty());
        }
        let n = similar.len();
        let mut i: usize = 0;
        while i < n
            invariant
                self.wf(),
                self.notes() == old(self).notes(),
                self.store_key() == old(self).store_key(),
                self.folders() == old(self).folders(),
                self.attachments() == old(self).attachments(),
                self.embeddings() == old(self).embeddings(),
                self.state() == old(self).state(),
                self.transcript() == old(self).transcript(),
                self.llm_resident() == old(self).llm_resident(),
                !self.asr_resident(),
                n == similar@.len(),
                0 <= i <= n,
                note_rows_view(results@) == live_fetch(
                    similar@.take(i as int),
                    old(self).notes(),
                    old(self).store_key(),
                ),
            decreases n - i,
        {
            let ghost pre_done = similar@.take(i as int);
            let ghost pre_results = note_rows_view(results@);
            proof {
                assert(similar@.take(i + 1) =~= pre_done.push(similar@[i as int]));
                lemma_live_fetch_push(
                    pre_done,
                    similar@[i as int],
                    old(self).notes(),
                    old(self).store_key(),
                );
            }
            let id = similar[i].0;
            match self.database.get_note(id) {
                Ok(note) => {
                    results.push(note);
                    proof {
                        assert(note_rows_view(results@) =~= pre_results + fetch_contribution(
                            similar@[i as int],
                            old(self).notes(),
                            old(self).store_key(),
                        ));
                    }
                },
                Err(e) => {
                    match e {
                        StoreError::NotFound => {
                            proof {
                                assert(fetch_contribution(
                                    similar@[i as int],
                                    old(self).notes(),
                                    old(self).store_key(),
                                ) =~= Seq::<(i64, Seq<u8>, Seq<u8>, i64)>::empty());
                                assert(note_rows_view(results@) =~= live_fetch(
                                    similar@.take(i + 1),
                                    old(self).notes(),
                                    old(self).store_key(),
                                ));
                            }
                        },
                        _ => {
                            self.model_manager.unload_rag();
                            return Err(EngineError::Store);
                        },
                    }
                },
            }
            i += 1;
        }
        self.model_manager.unload_rag();
        proof {
            assert(similar@.take(n as int) =~= similar@);
            assert(crate::db::ranking_prefix(
                similar@,
                old(self).embeddings(),
                embed_spec(query@),
                10,
            ));
        }
        Ok(results)
    }
}


impl Engine {
    /// The current lifecycle state, observable at runtime.
    pub fn current_state(&self) -> (r: EngineState)
        ensures
            r == self.state(),
    {
        self.state
    }

    /// Runtime view of model residency: transcriber, summarizer, embedder.
    pub fn residency(&self) -> (r: (bool, bool, bool))
        ensures
            r.0 == self.asr_resident(),
            r.1 == self.llm_resident(),
            r.2 == self.rag_resident(),
    {
        self.model_manager.residency()
    }

    /// Number of samples banked in the swap-window buffer.
    pub fn pending_audio_len(&self) -> (r: usize)
        ensures
            r == self.pending_audio().len(),
    {
        self.audio_buffer.len()
    }

    /// Number of samples held for the session's WAV.
    pub fn session_audio_len(&self) -> (r: usize)
        ensures
            r == self.session_audio().len(),
    {
        self.full_session_audio.len()
    }

    /// The tick counter.
    pub fn ticks(&self) -> (r: u64)
        ensures
            r == self.tick_count_spec(),
    {
        self.tick_count
    }
}


impl Engine {
    /// Store or replace a note's embedding, as retrieval bootstrapping
    /// for prior notes.
    pub fn save_embedding_for(&mut self, note_id: i64, embedding: &Vec<i64>) -> (r: Result<
        (),
        EngineError,
    >)
        requires
            old(self).wf(),
        ensures
            final(self).wf(),
            Self::same_non_store(*old(self), *final(self)),
            final(self).notes() == old(self).notes(),
            final(self).folders() == old(self).folders(),
            final(self).attachments() == old(self).attachments(),
            final(self).store_key() == old(self).store_key(),
            r matches Ok(u) ==> final(self).embeddings() == old(self).embeddings().insert(
                note_id,
                embedding@,
            ),
            r matches Err(e) ==> e == EngineError::Store && final(self).embeddings() == old(
                self,
            ).embeddings(),
    {
        match self.database.save_embedding(note_id, embedding) {
            Ok(()) => Ok(()),
            Err(_) => Err(EngineError::Store),
        }
    }
}


/// The bytes of "General": the folder seeded into an empty store.
pub open spec fn default_folder_name() -> Seq<u8> {
    seq![71u8, 101u8, 110u8, 101u8, 114u8, 97u8, 108u8]
}

impl Engine {
    /// Seed the default folder when the store holds none: the hierarchy
    /// every fresh installation starts with. Returns whether a folder was
    /// created.
    pub fn ensure_default_folder(&mut self) -> (r: Result<bool, EngineError>)
        requires
            old(self).wf(),
        ensures
            final(self).wf(),
            Self::same_non_store(*old(self), *final(self)),
            final(self).notes() == old(self).notes(),
            final(self).attachments() == old(self).attachments(),
            final(self).embeddings() == old(self).embeddings(),
            final(self).store_key() == old(self).store_key(),
            r matches Ok(created) ==> (created ==> old(self).folders() == Map::<
                i64,
                (Seq<u8>, i64),
            >::empty() && exists|id: i64, ts: i64|
                final(self).folders() == old(self).folders().insert(
                    id,
                    (default_folder_name(), ts),
                )) && (!created ==> final(self).folders() == old(self).folders() && old(
                self,
            ).folders() != Map::<i64, (Seq<u8>, i64)>::empty()),
            r matches Err(e) ==> e == EngineError::Store && final(self).folders() == old(
                self,
            ).folders(),
    {
        let existing = match self.get_folders() {
            Ok(v) => v,
            Err(e) => {
                return Err(e);
            },
        };
        if existing.len() == 0 {
            proof {
                assert(self.folders() =~= Map::<i64, (Seq<u8>, i64)>::empty()) by {
                    assert forall|id: i64| !(#[trigger] self.folders().contains_key(id)) by {
                        if self.folders().contains_key(id) {
                            let i = choose|i: int|
                                0 <= i < existing@.len() && (#[trigger] existing@[i]).0 == id;
                        }
                    }
                }
            }
            let name: [u8; 7] = [71, 101, 110, 101, 114, 97, 108];
            proof {
                assert(name@ =~= default_folder_name());
            }
            match self.create_folder(name.as_slice()) {
                Ok(id) => {
                    proof {
                        let t = choose|t: i64|
                            self.folders() == old(self).folders().insert(id, (name@, t));
                        assert(exists|id2: i64, ts: i64|
                            self.folders() == old(self).folders().insert(
                                id2,
                                (default_folder_name(), ts),
                            )) by {
                            assert(self.folders() == old(self).folders().insert(
                                id,
                                (default_folder_name(), t),
                            ));
                        }
                    }
                    Ok(true)
                },
                Err(e) => Err(e),
            }
        } else {
            proof {
                assert(self.folders().contains_key(existing@[0].0));
                assert(self.folders() != Map::<i64, (Seq<u8>, i64)>::empty());
            }
            Ok(false)
        }
    }
}


/// The views of fetched note rows: id, title, decrypted content, update
/// time.
pub open spec fn note_rows_view(v: Seq<(i64, Vec<u8>, Vec<u8>, i64)>) -> Seq<
    (i64, Seq<u8>, Seq<u8>, i64),
> {
    Seq::new(v.len(), |i: int| (v[i].0, v[i].1@, v[i].2@, v[i].3))
}

/// What one ranked pair contributes to a fetch: its live note's row, or
/// nothing when the note is missing or deleted.
pub open spec fn fetch_contribution(p: (i64, i64), notes: Map<i64, NoteRow>, key: Seq<u8>) -> Seq<
    (i64, Seq<u8>, Seq<u8>, i64),
> {
    if notes.contains_key(p.0) && !notes[p.0].4 {
        seq![(p.0, notes[p.0].0, content_plain(key, notes[p.0].1), notes[p.0].3)]
    } else {
        Seq::empty()
    }
}

/// The live notes of a ranking, fetched in order with decrypted content.
pub open spec fn live_fetch(ranked: Seq<(i64, i64)>, notes: Map<i64, NoteRow>, key: Seq<u8>) -> Seq<
    (i64, Seq<u8>, Seq<u8>, i64),
>
    decreases ranked.len(),
{
    if ranked.len() == 0 {
        Seq::empty()
    } else {
        fetch_contribution(ranked.first(), notes, key) + live_fetch(
            ranked.drop_first(),
            notes,
            key,
        )
    }
}

/// Appending one ranked pair extends the fetch by exactly its
/// contribution.
proof fn lemma_live_fetch_push(
    ranked: Seq<(i64, i64)>,
    x: (i64, i64),
    notes: Map<i64, NoteRow>,
    key: Seq<u8>,
)
    ensures
        live_fetch(ranked.push(x), notes, key) == live_fetch(ranked, notes, key)
            + fetch_contribution(x, notes, key),
    decreases ranked.len(),
{
    let row_x = fetch_contribution(x, notes, key);
    if ranked.len() == 0 {
        assert(ranked.push(x).first() == x);
        assert(ranked.push(x).drop_first() =~= Seq::<(i64, i64)>::empty());
        assert(live_fetch(Seq::<(i64, i64)>::empty(), notes, key) =~= Seq::<
            (i64, Seq<u8>, Seq<u8>, i64),
        >::empty());
        assert(live_fetch(ranked.push(x), notes, key) =~= row_x);
        assert(live_fetch(ranked, notes, key) + row_x =~= row_x);
    } else {
        assert(ranked.push(x).drop_first() =~= ranked.drop_first().push(x));
        assert(ranked.push(x).first() == ranked.first());
        lemma_live_fetch_push(ranked.drop_first(), x, notes, key);
        let row_h = fetch_contribution(ranked.first(), notes, key);
        assert(live_fetch(ranked.push(x), notes, key) == row_h + (live_fetch(
            ranked.drop_first(),
            notes,
            key,
        ) + row_x));
        assert(live_fetch(ranked, notes, key) + row_x =~= row_h + (live_fetch(
            ranked.drop_first(),
            notes,
            key,
        ) + row_x));
    }
}

} // verus!
