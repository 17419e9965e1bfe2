//! The host-facing operations, driven end to end over an in-memory store.

use tactanotes_core::api;
use tactanotes_core::engine::{Engine, EngineError, EngineState};

fn fresh_engine() -> Engine {
    Engine::new_in_memory(b"models").expect("engine")
}

#[test]
fn api_note_lifecycle() {
    let mut e = fresh_engine();
    let folder = api::create_folder(&mut e, b"General").expect("folder");
    api::set_current_folder(&mut e, Some(folder));

    let id = api::add_note(&mut e, b"Title", b"Body text", Some(folder)).expect("add");
    let (got, title, content, _) = api::get_note(&e, id).expect("get");
    assert_eq!(got, id);
    assert_eq!(title.as_slice(), b"Title".as_slice());
    assert_eq!(content.as_slice(), b"Body text".as_slice());

    api::update_note(&mut e, id, b"Title 2", b"Body 2").expect("update");
    let (_, t2, c2, _) = api::get_note(&e, id).expect("get2");
    assert_eq!(t2.as_slice(), b"Title 2".as_slice());
    assert_eq!(c2.as_slice(), b"Body 2".as_slice());

    let listed = api::get_notes_by_folder(&e, folder).expect("listed");
    assert_eq!(listed.len(), 1);

    let folders = api::get_folders(&e).expect("folders");
    assert_eq!(folders.len(), 1);
    assert_eq!(folders[0].1.as_slice(), b"General".as_slice());

    let att = api::add_attachment(&mut e, id, b"audio", b"/tmp/x.wav").expect("attach");
    let atts = api::get_attachments(&e, id).expect("atts");
    assert_eq!(atts.len(), 1);
    assert_eq!(atts[0].0, att);

    api::delete_note(&mut e, id).expect("delete");
    assert!(api::get_note(&e, id).is_err());
}

#[test]
fn api_session_flow() {
    let mut e = fresh_engine();
    assert_eq!(
        api::start_recording(&mut e, b"Algebra", false),
        Err(EngineError::NoInputDevice)
    );
    api::start_recording(&mut e, b"Algebra", true).expect("start");
    assert_eq!(e.current_state(), EngineState::Recording);

    api::update_thermal_status(&mut e, 39_000);

    e.submit_transcription(
        tactanotes_core::engine::AsrJobKind::DrainBuffered,
        b"note the big idea of today.",
    );
    assert_eq!(
        api::get_current_transcript(&e).as_slice(),
        b"note the big idea of today. ".as_slice()
    );

    let out = api::stop_recording(&mut e, None).expect("stop");
    assert!(out.note_id.is_some());
    assert_eq!(e.current_state(), EngineState::Recording);
    let summary = String::from_utf8_lossy(&out.summary).into_owned();
    assert!(summary.contains("note the big idea of today"));
}
