//! Engine scenarios: the state machine, the swap protocol, checkpoints,
//! de-duplication, retrieval and the long simulation.

use tactanotes_core::engine::{AsrJobKind, Engine, EngineError, EngineState};

fn fresh_engine() -> Engine {
    Engine::new_in_memory(b"models").expect("engine")
}

#[test]
fn start_requires_device_and_sets_state() {
    let mut e = fresh_engine();
    assert_eq!(e.current_state(), EngineState::Idle);
    assert_eq!(e.start_recording(false), Err(EngineError::NoInputDevice));
    assert_eq!(e.current_state(), EngineState::Idle);
    assert_eq!(e.start_recording(true), Ok(()));
    assert_eq!(e.current_state(), EngineState::Recording);
    let (asr, llm, rag) = e.residency();
    assert!(asr && !llm && !rag);
}

#[test]
fn residency_is_exclusive_across_swap() {
    let mut e = fresh_engine();
    e.start_recording(true).expect("start");
    e.begin_summary().expect("begin");
    assert_eq!(e.current_state(), EngineState::Summarizing);
    let (asr, llm, rag) = e.residency();
    assert!(!asr && llm && rag);
    let out = e.finish_summary(None).expect("finish");
    assert_eq!(e.current_state(), EngineState::Recording);
    let (asr2, llm2, rag2) = e.residency();
    assert!(asr2 && !llm2 && !rag2);
    assert_eq!(out.language.as_slice(), b"en".as_slice());
}

#[test]
fn stop_from_idle_is_refused() {
    let mut e = fresh_engine();
    assert!(matches!(
        e.stop_recording_and_summarize(None),
        Err(EngineError::NotRecording)
    ));
    assert_eq!(e.current_state(), EngineState::Idle);
}

#[test]
fn swap_preserves_audio() {
    // Capture ten seconds, stop; while summarizing five more seconds
    // arrive; after the resume the five seconds come back to the
    // transcriber through the swap-window drain.
    let mut e = fresh_engine();
    e.start_recording(true).expect("start");

    // Ten seconds at 16 kHz across ten ticks.
    for _ in 0..10 {
        let audio = vec![0u32; 16_000];
        let jobs = e.tick(&audio, None);
        for j in jobs {
            e.submit_transcription(j.kind, b"");
        }
    }
    assert_eq!(e.session_audio_len(), 160_000);

    e.begin_summary().expect("begin");
    // Five more seconds arrive during the swap.
    for _ in 0..5 {
        let jobs = e.tick(&vec![0u32; 16_000], None);
        assert!(jobs.is_empty());
    }
    assert_eq!(e.pending_audio_len(), 80_000);

    let out = e.finish_summary(None).expect("finish");
    assert!(out.note_id.is_some());
    assert_eq!(out.session_audio.len(), 160_000);
    assert_eq!(e.pending_audio_len(), 80_000);

    // Next tick in high performance drains the banked five seconds.
    let jobs = e.tick(&[], None);
    assert_eq!(jobs.len(), 1);
    assert_eq!(jobs[0].kind, AsrJobKind::DrainBuffered);
    assert_eq!(jobs[0].samples.len(), 80_000);
    assert_eq!(e.pending_audio_len(), 0);
}

#[test]
fn checkpoint_in_endurance() {
    // In endurance mode, 120 s of audio across 1200 ticks yields exactly
    // one batched transcription at tick 1200 and an empty buffer after.
    let mut e = fresh_engine();
    e.start_recording(true).expect("start");
    e.update_battery_temp(43_000);

    let mut batch_jobs = 0usize;
    for t in 1..=1200u64 {
        let audio = vec![0u32; 1_600];
        let jobs = e.tick(&audio, None);
        for j in &jobs {
            if j.kind == AsrJobKind::CheckpointBatch {
                batch_jobs += 1;
                assert_eq!(t, 1200);
                // The batch covers the whole swap-window buffer.
                assert_eq!(j.samples.len(), 480_000);
            }
        }
        for j in jobs {
            e.submit_transcription(j.kind, b"");
        }
    }
    assert_eq!(batch_jobs, 1);
    // The window was flushed; only the checkpoint tick's own audio,
    // which arrives after the flush, remains banked.
    assert_eq!(e.pending_audio_len(), 1_600);
}

#[test]
fn live_segments_are_deduplicated() {
    // A run of identical segments grows the transcript once.
    let mut e = fresh_engine();
    e.start_recording(true).expect("start");
    e.submit_transcription(AsrJobKind::LiveSegment, b"hello there friend");
    let after_first = e.get_current_transcript();
    assert_eq!(after_first.as_slice(), b"hello there friend ".as_slice());
    e.submit_transcription(AsrJobKind::LiveSegment, b"hello there friend");
    e.submit_transcription(AsrJobKind::LiveSegment, b"hello there friend");
    assert_eq!(e.get_current_transcript(), after_first);

    // Artifacts and blanks never land either.
    e.submit_transcription(AsrJobKind::LiveSegment, b"[BLANK_AUDIO]");
    e.submit_transcription(AsrJobKind::LiveSegment, b"   ");
    assert_eq!(e.get_current_transcript(), after_first);
}

#[test]
fn rag_threshold_filters_context() {
    // Two prior notes; against the transcript's embedding one scores
    // high, the other scores zero: only the first appears in the block.
    let mut e = fresh_engine();
    let near = e.add_note(b"NearTitle", b"near body", None).expect("near");
    let far = e.add_note(b"FarTitle", b"far body", None).expect("far");

    e.start_recording(true).expect("start");
    e.submit_transcription(AsrJobKind::DrainBuffered, b"aaaa");
    assert_eq!(e.get_current_transcript().as_slice(), b"aaaa ".as_slice());

    // The transcript "aaaa " embeds as 4 at byte 'a' and 1 at the space.
    let mut like_transcript = vec![0i64; 384];
    like_transcript[b'a' as usize] = 4;
    like_transcript[b' ' as usize] = 1;
    let mut unrelated = vec![0i64; 384];
    unrelated[b'0' as usize] = 5;
    e.save_embedding_for(near, &like_transcript).expect("emb near");
    e.save_embedding_for(far, &unrelated).expect("emb far");

    let out = e.stop_recording_and_summarize(None).expect("stop");
    let block = String::from_utf8_lossy(&out.context_block).into_owned();
    assert!(block.contains("NearTitle"));
    assert!(!block.contains("FarTitle"));
    assert!(block.contains("(Similarity: 1.00)"));
}

#[test]
fn semantic_search_returns_ranked_live_notes() {
    // Three prior notes: the best and a weaker match survive in rank
    // order; a deleted note is ranked but not returned.
    let mut e = fresh_engine();
    let a = e.add_note(b"Alpha", b"alpha body", None).expect("a");
    let b = e.add_note(b"Beta", b"beta body", None).expect("b");
    let c = e.add_note(b"Gone", b"gone body", None).expect("c");

    // The query "aaaa" embeds as 4 at byte 'a'.
    let mut colinear = vec![0i64; 384];
    colinear[b'a' as usize] = 4;
    let mut orthogonal = vec![0i64; 384];
    orthogonal[b'0' as usize] = 5;
    let mut partial = vec![0i64; 384];
    partial[b'a' as usize] = 1;
    partial[b'b' as usize] = 1;
    e.save_embedding_for(a, &colinear).expect("emb a");
    e.save_embedding_for(b, &orthogonal).expect("emb b");
    e.save_embedding_for(c, &partial).expect("emb c");
    e.delete_note(c).expect("delete c");

    let results = e.search_notes(b"aaaa").expect("search");
    assert_eq!(results.len(), 2);
    assert_eq!(results[0].0, a);
    assert_eq!(results[0].1.as_slice(), b"Alpha".as_slice());
    assert_eq!(results[0].2.as_slice(), b"alpha body".as_slice());
    assert_eq!(results[1].0, b);
    let (_, _, rag) = e.residency();
    assert!(!rag);
}

#[test]
fn append_to_existing_note() {
    let mut e = fresh_engine();
    let id = e.add_note(b"Base", b"existing content", None).expect("base");
    e.start_recording(true).expect("start");
    e.submit_transcription(
        AsrJobKind::DrainBuffered,
        b"remember the key idea of the lecture.",
    );
    let out = e.stop_recording_and_summarize(Some(id)).expect("stop");
    assert_eq!(out.note_id, Some(id));
    let (_, _, content, _) = e.get_note(id).expect("get");
    let text = String::from_utf8_lossy(&content).into_owned();
    assert!(text.starts_with("existing content\n\n---\n\n"));
    assert!(text.contains("Key Takeaways:"));
}

#[test]
fn torture_test_10_hours_simulation() {
    // Ten simulated hours at ten ticks a second: a second of silence
    // every ten ticks, a summary every simulated hour; the engine must
    // come out recording, with residency exclusive throughout.
    let mut e = fresh_engine();
    e.set_subject(b"Torture Test Physics");
    e.start_recording(true).expect("Failed to start recording");

    let total_ticks: u64 = 10 * 3600 * 10;
    let second_of_silence = vec![0u32; 16_000];
    for i in 1..=total_ticks {
        let jobs = if i % 10 == 0 {
            e.tick(&second_of_silence, None)
        } else {
            e.tick(&[], None)
        };
        for j in jobs {
            e.submit_transcription(j.kind, b"");
        }
        if i % (3600 * 10) == 0 {
            let (asr, llm, _) = e.residency();
            assert!(!(asr && llm));
            e.stop_recording_and_summarize(None).expect("hourly summary");
            assert_eq!(e.current_state(), EngineState::Recording);
        }
    }
    assert_eq!(e.current_state(), EngineState::Recording);
    assert_eq!(e.ticks(), total_ticks);
}
