//! Host-facing operations: thin typed entry points over an engine the
//! host owns. The host keeps the engine behind its process-wide lock and
//! calls these with it; each forwards to the engine and carries the same
//! guarantee.

use vstd::prelude::*;

use crate::db::{content_plain, covers_folder_notes, covers_folders, covers_note_attachments};
use crate::engine::{
    block_wf, ok_transition, Engine, EngineError, EngineState, SummaryOutcome,
};
use crate::rag::embed_spec;
use crate::summarizer::summarize_spec;
use crate::security::sealed_layout;

verus! {

/// Set the session subject and start recording; fails without a capture
/// device (which the host probes), leaving the state unchanged.
pub fn start_recording(engine: &mut Engine, subject: &[u8], device_available: bool) -> (r: Result<
    (),
    EngineError,
>)
    requires
        old(engine).wf(),
    ensures
        final(engine).wf(),
        ok_transition(old(engine).state(), final(engine).state()),
        final(engine).subject() == subject@,
        final(engine).asr_resident() && !final(engine).llm_resident() && !final(engine).rag_resident(),
        final(engine).transcript() == old(engine).transcript(),
        device_available ==> r is Ok && final(engine).state() == EngineState::Recording && final(engine).session_audio() == Seq::<u32>::empty(),
        !device_available ==> r == Err::<(), EngineError>(EngineError::NoInputDevice) && final(engine).state() == old(engine).state(),
{
    engine.set_subject(subject);
    engine.start_recording(device_available)
}

/// Stop the session and produce the summary; from `Idle` there is nothing
/// to stop.
pub fn stop_recording(engine: &mut Engine, append_to: Option<i64>) -> (r: Result<
    SummaryOutcome,
    EngineError,
>)
    requires
        old(engine).wf(),
    ensures
        final(engine).wf(),
        ok_transition(old(engine).state(), final(engine).state()),
        old(engine).state() == EngineState::Idle ==> (r matches Err(e) && e
            == EngineError::NotRecording),
        old(engine).state() != EngineState::Idle ==> (r matches Ok(o) && {
            &&& final(engine).state() == EngineState::Recording
            &&& final(engine).transcript() == old(engine).transcript()
            &&& final(engine).pending_audio() == old(engine).pending_audio()
            &&& final(engine).folders() == old(engine).folders()
            &&& final(engine).attachments() == old(engine).attachments()
            &&& o.note_id matches Some(nid) ==> final(engine).notes().contains_key(nid)
            &&& o.note_id is None ==> final(engine).notes() == old(engine).notes()
            &&& append_to matches Some(aid) ==> (o.note_id == Some(aid) || o.note_id is None)
            &&& append_to is None ==> (o.note_id matches Some(nid) ==> exists|
                blob: Seq<u8>,
                tsr: i64,
                tst: i64,
            |
                sealed_layout(old(engine).store_key(), blob, o.summary@) && final(engine).notes()
                    == old(engine).notes().insert(
                    nid,
                    (
                        crate::engine::note_title_spec(tst as int),
                        blob,
                        tsr,
                        tsr,
                        false,
                        old(engine).folder(),
                    ),
                ))
            &&& append_to matches Some(aid) ==> (o.note_id == Some(aid) ==> (final(engine).notes()
                == old(engine).notes() || exists|blob: Seq<u8>, tsr: i64|
                old(engine).notes().contains_key(aid) && sealed_layout(
                    old(engine).store_key(),
                    blob,
                    content_plain(old(engine).store_key(), old(engine).notes()[aid].1)
                        + crate::engine::append_separator() + o.summary@,
                ) && final(engine).notes() == old(engine).notes().insert(
                    aid,
                    (
                        old(engine).notes()[aid].0,
                        blob,
                        old(engine).notes()[aid].2,
                        tsr,
                        old(engine).notes()[aid].4,
                        old(engine).notes()[aid].5,
                    ),
                )))
            &&& (final(engine).embeddings() == old(engine).embeddings() || (
            o.note_id matches Some(nid2) && final(engine).embeddings() == old(engine).embeddings().insert(nid2, embed_spec(old(engine).transcript()))))
            &&& o.note_id is Some ==> o.session_audio@ == old(engine).session_audio() && final(engine).session_audio() == Seq::<u32>::empty()
            &&& o.note_id is None ==> o.session_audio@.len() == 0 && final(engine).session_audio()
                == old(engine).session_audio()
        }),
        old(engine).state() == EngineState::Recording ==> (r matches Ok(o) && o.summary@
            == summarize_spec(old(engine).transcript() + o.context_block@) && block_wf(
            o.context_block@,
            old(engine).notes(),
            old(engine).embeddings(),
            old(engine).store_key(),
            embed_spec(old(engine).transcript()),
        ) && o.language@ == crate::lang::detect_spec(old(engine).transcript())),
{
    engine.stop_recording_and_summarize(append_to)
}

/// Forward a battery temperature, in millidegrees.
pub fn update_thermal_status(engine: &mut Engine, battery_temp_milli: i64)
    ensures
        final(engine).wf() == old(engine).wf(),
        final(engine).state() == old(engine).state(),
        final(engine).endurance_state().battery_milli() == battery_temp_milli as int,
{
    engine.update_battery_temp(battery_temp_milli);
}

pub fn create_folder(engine: &mut Engine, name: &[u8]) -> (r: Result<i64, EngineError>)
    requires
        old(engine).wf(),
    ensures
        final(engine).wf(),
        final(engine).state() == old(engine).state(),
        final(engine).notes() == old(engine).notes(),
        final(engine).attachments() == old(engine).attachments(),
        final(engine).embeddings() == old(engine).embeddings(),
        final(engine).store_key() == old(engine).store_key(),
        r matches Ok(id) ==> !old(engine).folders().contains_key(id) && exists|ts: i64|
            final(engine).folders() == old(engine).folders().insert(id, (name@, ts)),
        r matches Err(e) ==> e == EngineError::Store && final(engine).folders() == old(engine).folders(),
{
    engine.create_folder(name)
}

pub fn get_folders(engine: &Engine) -> (r: Result<Vec<(i64, Vec<u8>)>, EngineError>)
    requires
        engine.wf(),
    ensures
        r matches Ok(v) ==> forall|i: int|
            0 <= i < v@.len() ==> engine.folders().contains_key(#[trigger] v@[i].0)
                && engine.folders()[v@[i].0].0 == v@[i].1@,
        r matches Ok(v) ==> covers_folders(engine.folders(), v@),
        r matches Err(e) ==> e == EngineError::Store,
{
    engine.get_folders()
}

pub fn get_notes_by_folder(engine: &Engine, folder_id: i64) -> (r: Result<
    Vec<(i64, Vec<u8>, Vec<u8>, i64)>,
    EngineError,
>)
    requires
        engine.wf(),
    ensures
        r matches Ok(v) ==> forall|i: int|
            0 <= i < v@.len() ==> engine.notes().contains_key(#[trigger] v@[i].0)
                && engine.notes()[v@[i].0].5 == Some(folder_id) && engine.notes()[v@[i].0].0
                == v@[i].1@ && v@[i].2@ == content_plain(
                engine.store_key(),
                engine.notes()[v@[i].0].1,
            ),
        r matches Ok(v) ==> covers_folder_notes(engine.notes(), folder_id, v@),
        r matches Err(e) ==> e == EngineError::Store,
{
    engine.get_notes_by_folder(folder_id)
}

pub fn set_current_folder(engine: &mut Engine, folder_id: Option<i64>)
    ensures
        final(engine).folder() == folder_id,
        final(engine).state() == old(engine).state(),
        final(engine).wf() == old(engine).wf(),
{
    engine.set_current_folder(folder_id);
}

pub fn add_note(engine: &mut Engine, title: &[u8], content: &[u8], folder_id: Option<i64>) -> (r:
    Result<i64, EngineError>)
    requires
        old(engine).wf(),
    ensures
        final(engine).wf(),
        final(engine).state() == old(engine).state(),
        final(engine).folders() == old(engine).folders(),
        final(engine).attachments() == old(engine).attachments(),
        final(engine).embeddings() == old(engine).embeddings(),
        final(engine).store_key() == old(engine).store_key(),
        r matches Ok(id) ==> !old(engine).notes().contains_key(id) && exists|
            blob: Seq<u8>,
            ts: i64,
        |
            sealed_layout(old(engine).store_key(), blob, content@) && final(engine).notes() == old(engine).notes().insert(id, (title@, blob, ts, ts, false, folder_id)),
        r matches Err(e) ==> e == EngineError::Store && final(engine).notes() == old(engine).notes(),
{
    engine.add_note(title, content, folder_id)
}

pub fn update_note(engine: &mut Engine, note_id: i64, title: &[u8], content: &[u8]) -> (r: Result<
    (),
    EngineError,
>)
    requires
        old(engine).wf(),
    ensures
        final(engine).wf(),
        final(engine).state() == old(engine).state(),
        final(engine).folders() == old(engine).folders(),
        final(engine).attachments() == old(engine).attachments(),
        final(engine).embeddings() == old(engine).embeddings(),
        final(engine).store_key() == old(engine).store_key(),
        r matches Ok(u) ==> (old(engine).notes().contains_key(note_id) ==> exists|
            blob: Seq<u8>,
            ts: i64,
        |
            sealed_layout(old(engine).store_key(), blob, content@) && final(engine).notes() == old(engine).notes().insert(
                note_id,
                (
                    title@,
                    blob,
                    old(engine).notes()[note_id].2,
                    ts,
                    old(engine).notes()[note_id].4,
                    old(engine).notes()[note_id].5,
                ),
            )),
        r matches Err(e) ==> e == EngineError::Store && final(engine).notes() == old(engine).notes(),
{
    engine.update_note(note_id, title, content)
}

pub fn delete_note(engine: &mut Engine, note_id: i64) -> (r: Result<(), EngineError>)
    requires
        old(engine).wf(),
    ensures
        final(engine).wf(),
        final(engine).state() == old(engine).state(),
        final(engine).folders() == old(engine).folders(),
        final(engine).attachments() == old(engine).attachments(),
        final(engine).embeddings() == old(engine).embeddings(),
        final(engine).store_key() == old(engine).store_key(),
        r matches Ok(u) ==> (old(engine).notes().contains_key(note_id) ==> exists|ts: i64|
            final(engine).notes() == old(engine).notes().insert(
                note_id,
                (
                    old(engine).notes()[note_id].0,
                    old(engine).notes()[note_id].1,
                    old(engine).notes()[note_id].2,
                    ts,
                    true,
                    old(engine).notes()[note_id].5,
                ),
            )),
        r matches Err(e) ==> e == EngineError::Store && final(engine).notes() == old(engine).notes(),
{
    engine.delete_note(note_id)
}

/// The rolling transcript as the host sees it. The host ticks the engine
/// with freshly drained audio before calling this.
pub fn get_current_transcript(engine: &Engine) -> (r: Vec<u8>)
    ensures
        r@ == engine.transcript(),
{
    engine.get_current_transcript()
}

pub fn get_note(engine: &Engine, note_id: i64) -> (r: Result<
    (i64, Vec<u8>, Vec<u8>, i64),
    EngineError,
>)
    requires
        engine.wf(),
    ensures
        r matches Ok(v) ==> engine.notes().contains_key(note_id) && !engine.notes()[note_id].4
            && v.0 == note_id && v.1@ == engine.notes()[note_id].0 && v.2@ == content_plain(
            engine.store_key(),
            engine.notes()[note_id].1,
        ),
        r matches Err(e) ==> e == EngineError::Store,
{
    engine.get_note(note_id)
}

pub fn get_attachments(engine: &Engine, note_id: i64) -> (r: Result<
    Vec<(i64, Vec<u8>, Vec<u8>)>,
    EngineError,
>)
    requires
        engine.wf(),
    ensures
        r matches Ok(v) ==> forall|i: int|
            0 <= i < v@.len() ==> engine.attachments().contains_key(#[trigger] v@[i].0)
                && engine.attachments()[v@[i].0].0 == note_id && engine.attachments()[v@[i].0].1
                == v@[i].1@ && engine.attachments()[v@[i].0].2 == v@[i].2@,
        r matches Ok(v) ==> covers_note_attachments(engine.attachments(), note_id, v@),
        r matches Err(e) ==> e == EngineError::Store,
{
    engine.get_attachments(note_id)
}

pub fn add_attachment(engine: &mut Engine, note_id: i64, file_type: &[u8], file_path: &[u8]) -> (r:
    Result<i64, EngineError>)
    requires
        old(engine).wf(),
    ensures
        final(engine).wf(),
        final(engine).state() == old(engine).state(),
        final(engine).notes() == old(engine).notes(),
        final(engine).folders() == old(engine).folders(),
        final(engine).embeddings() == old(engine).embeddings(),
        final(engine).store_key() == old(engine).store_key(),
        r matches Ok(id) ==> !old(engine).attachments().contains_key(id) && exists|
            ts: i64,
        |
            final(engine).attachments() == old(engine).attachments().insert(
                id,
                (note_id, file_type@, file_path@, ts),
            ),
        r matches Err(e) ==> e == EngineError::Store && final(engine).attachments() == old(engine).attachments(),
{
    engine.add_attachment(note_id, file_type, file_path)
}

} // verus!
