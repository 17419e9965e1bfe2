//! Language detection, endurance hysteresis, summarizer output, sync
//! planning, scoring and the small facades.

use tactanotes_core::endurance::{EnduranceController, EnduranceMode};
use tactanotes_core::lang::LanguageDetector;
use tactanotes_core::ocr::OcrEngine;
use tactanotes_core::rag::{cosine_milli, VectorStore};
use tactanotes_core::summarizer::LlmModel;
use tactanotes_core::sync::{NoteState, SyncEngine};
use tactanotes_core::textutil::{first_two_lines, i64_to_dec, trim_bytes};
use tactanotes_core::vad::VadEngine;

#[test]
fn language_detect_scenarios() {
    let d = LanguageDetector::new();
    assert_eq!(d.detect("Bonjour tout le monde"), b"fr");
    assert_eq!(d.detect("Hola amigos"), b"es");
    assert_eq!(d.detect("hello there"), b"en");
}

#[test]
fn endurance_hysteresis_cycle() {
    // Crossing up at (76 C, 43 C) and back down to (64 C, 37 C) makes
    // exactly one up-transition and one down-transition, in order.
    let mut ctl = EnduranceController::new();
    let mut transitions: Vec<(EnduranceMode, EnduranceMode)> = Vec::new();
    let mut last = ctl.current_mode;

    ctl.update_battery_temp(43_000);
    let readings = [76_000i64, 70_000, 66_000, 64_000];
    let batteries = [43_000i64, 40_000, 39_000, 37_000];
    for k in 0..readings.len() {
        ctl.update_battery_temp(batteries[k]);
        let m = ctl.check_status(Some(readings[k]));
        if m != last {
            transitions.push((last, m));
        }
        last = m;
    }
    assert_eq!(
        transitions,
        vec![
            (EnduranceMode::HighPerformance, EnduranceMode::Endurance),
            (EnduranceMode::Endurance, EnduranceMode::HighPerformance),
        ]
    );
}

#[test]
fn endurance_band_keeps_mode() {
    let mut ctl = EnduranceController::new();
    ctl.update_battery_temp(40_000);
    assert_eq!(ctl.check_status(Some(70_000)), EnduranceMode::HighPerformance);
    ctl.update_battery_temp(43_000);
    assert_eq!(ctl.check_status(Some(70_000)), EnduranceMode::Endurance);
    // Inside the hysteresis band nothing changes.
    ctl.update_battery_temp(40_000);
    assert_eq!(ctl.check_status(Some(70_000)), EnduranceMode::Endurance);
}

#[test]
fn summarizer_key_takeaways_and_dedup() {
    let llm = LlmModel::load(b"models");
    let text = b"This is an important concept for the exam. Short. This is an important concept for the exam.";
    let out = llm.summarize(text);
    assert_eq!(
        out.as_slice(),
        b"Key Takeaways:\n- This is an important concept for the exam".as_slice()
    );
}

#[test]
fn summarizer_fallback_and_main_points() {
    let llm = LlmModel::load(b"models");
    // No sentence is significant, but two raw segments are over 10 bytes.
    let out = llm.summarize(b"hello world. bye bye bye. xx.");
    assert_eq!(out.as_slice(), b"Summary:\n- hello world.\n- bye bye bye".as_slice());

    // Nothing qualifies at all.
    let out2 = llm.summarize(b"hi. yo.");
    assert_eq!(out2.as_slice(), b"Main points: hi. yo.".as_slice());

    // Blank input gives an empty summary.
    assert!(llm.summarize(b"   ").is_empty());
}

#[test]
fn summarizer_filters_blank_audio_artifacts() {
    let llm = LlmModel::load(b"models");
    let out = llm.summarize(b"[BLANK_AUDIO] something or other here. remember the key idea today.");
    assert_eq!(out.as_slice(), b"Key Takeaways:\n- remember the key idea today".as_slice());
}

#[test]
fn sync_calculate_changes_plan() {
    let local = vec![
        NoteState { id: 1, content_hash: String::new(), updated_at: 10 },
        NoteState { id: 2, content_hash: String::new(), updated_at: 5 },
        NoteState { id: 4, content_hash: String::new(), updated_at: 3 },
    ];
    let remote = vec![
        NoteState { id: 1, content_hash: String::new(), updated_at: 8 },
        NoteState { id: 3, content_hash: String::new(), updated_at: 9 },
        NoteState { id: 4, content_hash: String::new(), updated_at: 7 },
    ];
    let (up, down) = SyncEngine::calculate_changes(&local, &remote);
    // 1 is newer locally, 2 is unknown remotely; 4 is newer remotely and
    // 3 is unknown locally.
    assert_eq!(up, vec![1, 2]);
    assert_eq!(down, vec![4, 3]);
}

#[test]
fn cosine_scores_in_millis() {
    assert_eq!(cosine_milli(&[3, 4], &[1, 0]), 600);
    assert_eq!(cosine_milli(&[3, 4], &[4, -3]), 0);
    assert_eq!(cosine_milli(&[3, 4], &[3, 4]), 1000);
    assert_eq!(cosine_milli(&[], &[1]), 0);
}

#[test]
fn vector_store_subject_context() {
    let mut store = VectorStore::new();
    store.add_document(b"notes about rings", b"algebra");
    store.add_document(b"notes about groups", b"algebra");
    store.add_document(b"notes about beams", b"statics");
    let q = store.embed(b"groups");
    let ctx = store.unwrap_context(&q, b"algebra");
    assert_eq!(ctx.as_slice(), b"(Context from algebra notes): notes about groups".as_slice());
    assert!(store.unwrap_context(&q, b"history").is_empty());
}

#[test]
fn ocr_and_vad_facades() {
    let ocr = OcrEngine::new();
    assert_eq!(ocr.recognize_text(&[1, 2, 3]).as_slice(), b"Extracted text from image".as_slice());
    let mut vad = VadEngine::new(b"vad-model");
    assert!(vad.is_speech(&[0, 0, 0]));
}

#[test]
fn simulation_freezes_endurance_mode() {
    let mut ctl = EnduranceController::new();
    ctl.simulate_environment(0, 90_000);
    // Frozen: even a hot reading leaves the mode as it was.
    assert_eq!(ctl.check_status(Some(90_000)), EnduranceMode::HighPerformance);
}

#[test]
fn text_helpers() {
    assert_eq!(i64_to_dec(0), b"0");
    assert_eq!(i64_to_dec(90210), b"90210");
    assert_eq!(i64_to_dec(-42), b"-42");
    assert_eq!(i64_to_dec(i64::MIN), b"-9223372036854775808");
    assert_eq!(trim_bytes(b"  hi \n"), b"hi");
    assert_eq!(first_two_lines(b"one\ntwo\nthree"), b"one two");
    assert_eq!(first_two_lines(b"single"), b"single");
}
