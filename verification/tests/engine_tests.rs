use codecophony::engine::{RenderThread, RenderStepOutcome, MessageToRenderThread};
use codecophony::script::{Note, PlaybackScript};
use codecophony::cache::RenderCache;
use codecophony::units::EngineConfig;

fn cfg() -> EngineConfig {
    EngineConfig { sample_hz: 44100, frames_per_buffer: 256 }
}

fn one_second_script() -> PlaybackScript {
    PlaybackScript {
        notes: vec![Note { start_time: 0, duration: 1_000_000, pitch: 60 }],
        end: None,
        loop_back_to: None,
    }
}

#[test]
fn idle_until_a_start_time_is_specified() {
    let mut engine = RenderThread::new(cfg());
    let cache = RenderCache::new();
    assert!(matches!(engine.render_step(&cache), RenderStepOutcome::Idle));
}

#[test]
fn restart_at_zero_sends_one_unfaded_note() {
    // A script with a single one-second note, started from its beginning:
    // exactly one note reaches the audio thread, with no fade-in and no
    // fade-out.
    let mut engine = RenderThread::new(cfg());
    let mut cache = RenderCache::new();
    let stop = engine.process_message(MessageToRenderThread::ReplaceScript(one_second_script()));
    assert!(stop);
    let stop = engine.process_message(MessageToRenderThread::RestartPlaybackAt(Some(0)));
    assert!(stop);

    let mut sent = Vec::new();
    let mut extensions_before_priming = 0;
    for _ in 0..200 {
        match engine.render_step(&cache) {
            RenderStepOutcome::Idle => break,
            RenderStepOutcome::NeedsRender(descriptor) => {
                cache.insert(descriptor, 44100, vec![500; 44100]);
            },
            RenderStepOutcome::Rendered => {},
            RenderStepOutcome::Sent(note) => sent.push(note),
            RenderStepOutcome::Restarted(_) => panic!("engine fell behind in a fresh start"),
            RenderStepOutcome::Extended => {
                if engine.actual_playback_start_frame_time.is_none() {
                    extensions_before_priming += 1;
                }
            },
        }
    }
    // Priming needs only two window extensions before the threshold.
    assert!(extensions_before_priming <= 2);
    assert_eq!(sent.len(), 1);
    let note = &sent[0];
    // Committed start: two buffers past the playback clock (which is 0).
    assert_eq!(note.first_sample_time, 512);
    assert!(note.fadein_start.is_none());
    assert!(note.fadeout_end.is_none());
    assert_eq!(note.frames.len(), 44100);
}

#[test]
fn restart_into_the_middle_of_a_note_fades_it_in() {
    let mut engine = RenderThread::new(cfg());
    let mut cache = RenderCache::new();
    engine.process_message(MessageToRenderThread::ReplaceScript(one_second_script()));
    // Seek a few milliseconds into the note: it straddles the target, so
    // it is queued immediately at a negative offset.
    engine.process_message(MessageToRenderThread::RestartPlaybackAt(Some(5_000)));
    assert_eq!(engine.render_queue.len(), 1);
    assert_eq!(engine.render_queue[0].duration_from_start, -5_000);

    let mut sent = Vec::new();
    for _ in 0..200 {
        match engine.render_step(&cache) {
            RenderStepOutcome::Idle => break,
            RenderStepOutcome::NeedsRender(descriptor) => {
                cache.insert(descriptor, 44100, vec![500; 44100]);
            },
            RenderStepOutcome::Sent(note) => sent.push(note),
            RenderStepOutcome::Restarted(_) => panic!("engine fell behind in a fresh start"),
            _ => {},
        }
    }
    assert_eq!(sent.len(), 1);
    let note = &sent[0];
    // 5 ms (221 frames, to the nearest) before the committed start of 512.
    assert_eq!(note.first_sample_time, 512 - 221);
    // Resuming mid-note: faded in at the committed start.
    assert_eq!(note.fadein_start, Some(512));
}

#[test]
fn replace_script_stalls_at_the_currently_playing_moment() {
    // Two seconds into playback, a script replacement re-enters the
    // stalled state at two seconds, not at zero.
    let mut engine = RenderThread::new(cfg());
    let mut cache = RenderCache::new();
    engine.process_message(MessageToRenderThread::ReplaceScript(one_second_script()));
    engine.process_message(MessageToRenderThread::RestartPlaybackAt(Some(0)));
    for _ in 0..200 {
        match engine.render_step(&cache) {
            RenderStepOutcome::Idle => break,
            RenderStepOutcome::NeedsRender(descriptor) => {
                cache.insert(descriptor, 44100, vec![500; 44100]);
            },
            _ => {},
        }
    }
    let start_frame = engine.actual_playback_start_frame_time.expect("playback should have started");
    // The audio thread reports that its clock reached two seconds past
    // the committed start.
    engine.process_message(MessageToRenderThread::PlaybackReachedTime(start_frame + 88_200));
    engine.process_message(MessageToRenderThread::ReplaceScript(one_second_script()));
    assert_eq!(engine.specified_playback_start_script_time, Some(2_000_000));
    assert!(engine.actual_playback_start_frame_time.is_none());
}

#[test]
fn falling_behind_restarts_at_the_late_note() {
    let mut engine = RenderThread::new(cfg());
    let mut cache = RenderCache::new();
    let script = PlaybackScript {
        notes: vec![Note { start_time: 0, duration: 200_000, pitch: 60 }],
        end: None,
        loop_back_to: None,
    };
    engine.process_message(MessageToRenderThread::ReplaceScript(script));
    engine.process_message(MessageToRenderThread::RestartPlaybackAt(Some(0)));
    // Render and prime, but let the device clock race far ahead right
    // after priming, before the note is dispatched.
    let mut restarted_at = None;
    let mut clock_jumped = false;
    for _ in 0..200 {
        if engine.actual_playback_start_frame_time.is_some() && !clock_jumped {
            engine.process_message(MessageToRenderThread::PlaybackReachedTime(2_000_000));
            clock_jumped = true;
        }
        match engine.render_step(&cache) {
            RenderStepOutcome::Idle => break,
            RenderStepOutcome::NeedsRender(descriptor) => {
                cache.insert(descriptor, 44100, vec![500; 8820]);
            },
            RenderStepOutcome::Restarted(t) => {
                restarted_at = Some(t);
                break;
            },
            _ => {},
        }
    }
    assert_eq!(restarted_at, Some(0));
    // The restart is a stall at the late note's start time.
    assert_eq!(engine.specified_playback_start_script_time, Some(0));
    assert!(engine.actual_playback_start_frame_time.is_none());
    assert_eq!(engine.playback_queue.len(), 0);
}

#[test]
fn malformed_input_is_rejected_and_state_preserved() {
    let mut engine = RenderThread::new(cfg());
    engine.process_message(MessageToRenderThread::ReplaceScript(one_second_script()));
    engine.process_message(MessageToRenderThread::RestartPlaybackAt(Some(250_000)));
    let before = engine.specified_playback_start_script_time;

    // An empty script is rejected.
    let stop = engine.process_message(MessageToRenderThread::ReplaceScript(PlaybackScript {
        notes: Vec::new(),
        end: None,
        loop_back_to: None,
    }));
    assert!(!stop);
    assert_eq!(engine.specified_playback_start_script_time, before);
    assert_eq!(engine.script.notes.len(), 1);

    // A script with a negative duration is rejected.
    let stop = engine.process_message(MessageToRenderThread::ReplaceScript(PlaybackScript {
        notes: vec![Note { start_time: 0, duration: -1, pitch: 60 }],
        end: None,
        loop_back_to: None,
    }));
    assert!(!stop);
    assert_eq!(engine.script.notes.len(), 1);

    // A seek outside the accepted script-time range is rejected.
    let stop = engine.process_message(MessageToRenderThread::RestartPlaybackAt(
        Some(2_000_000_000_000)));
    assert!(!stop);
    assert_eq!(engine.specified_playback_start_script_time, before);

    // A clock report outside the accepted frame range is ignored.
    engine.process_message(MessageToRenderThread::PlaybackReachedTime(-5));
    assert_eq!(engine.latest_playback_reached, 0);
}

#[test]
fn stopping_clears_the_start_time() {
    let mut engine = RenderThread::new(cfg());
    engine.process_message(MessageToRenderThread::ReplaceScript(one_second_script()));
    engine.process_message(MessageToRenderThread::RestartPlaybackAt(Some(0)));
    let stop = engine.process_message(MessageToRenderThread::RestartPlaybackAt(None));
    assert!(stop);
    assert_eq!(engine.specified_playback_start_script_time, None);
    let cache = RenderCache::new();
    assert!(matches!(engine.render_step(&cache), RenderStepOutcome::Idle));
}

#[test]
fn stall_recovery_reaches_playing_within_few_steps() {
    // Notes spaced at least one lookahead step apart: the thread commits
    // a start frame within a handful of loop turns after a stall.
    let mut engine = RenderThread::new(cfg());
    let mut cache = RenderCache::new();
    let script = PlaybackScript {
        notes: vec![
            Note { start_time: 0, duration: 90_000, pitch: 60 },
            Note { start_time: 100_000, duration: 90_000, pitch: 62 },
            Note { start_time: 200_000, duration: 90_000, pitch: 64 },
        ],
        end: None,
        loop_back_to: None,
    };
    engine.process_message(MessageToRenderThread::ReplaceScript(script));
    engine.process_message(MessageToRenderThread::RestartPlaybackAt(Some(0)));
    let mut steps = 0;
    while engine.actual_playback_start_frame_time.is_none() {
        steps += 1;
        assert!(steps <= 10, "priming took too many steps");
        match engine.render_step(&cache) {
            RenderStepOutcome::NeedsRender(descriptor) => {
                cache.insert(descriptor, 44100, vec![500; 4410]);
            },
            RenderStepOutcome::Idle => panic!("engine idled while stalled with work pending"),
            RenderStepOutcome::Restarted(_) => panic!("engine fell behind while priming"),
            _ => {},
        }
    }
}
