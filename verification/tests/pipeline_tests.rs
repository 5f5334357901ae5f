use codecophony::cache::RenderCache;
use codecophony::engine::{MessageToRenderThread, RenderStepOutcome, RenderThread};
use codecophony::mixer::{MessageToPortaudioThread, PortaudioThread};
use codecophony::script::{Note, PlaybackScript};
use codecophony::units::EngineConfig;

// The two halves of the engine run against each other exactly as a live
// process would: the preparation loop works until idle, then one device
// callback runs and its clock report feeds back.

#[test]
fn notes_are_always_scheduled_ahead_of_the_playback_clock() {
    let cfg = EngineConfig { sample_hz: 44100, frames_per_buffer: 256 };
    let script = PlaybackScript {
        notes: vec![
            Note { start_time: 0, duration: 100_000, pitch: 60 },
            Note { start_time: 150_000, duration: 100_000, pitch: 64 },
            Note { start_time: 300_000, duration: 100_000, pitch: 67 },
        ],
        end: None,
        loop_back_to: None,
    };
    let mut engine = RenderThread::new(cfg);
    let mut mixer = PortaudioThread::new();
    let mut cache = RenderCache::new();
    engine.process_message(MessageToRenderThread::ReplaceScript(script));
    engine.process_message(MessageToRenderThread::RestartPlaybackAt(Some(0)));

    let mut sent_count = 0;
    let mut pending: Vec<MessageToPortaudioThread> = Vec::new();
    let mut heard_anything = false;
    for _ in 0..120 {
        loop {
            match engine.render_step(&cache) {
                RenderStepOutcome::Idle => break,
                RenderStepOutcome::NeedsRender(descriptor) => {
                    cache.insert(descriptor, 44100, vec![400; 4410]);
                },
                RenderStepOutcome::Sent(note) => {
                    // No note starts before its scheduled frame: the hand-off
                    // stays ahead of the last clock position reported.
                    assert!(note.first_sample_time
                        > engine.latest_playback_reached + 256);
                    sent_count += 1;
                    pending.push(MessageToPortaudioThread::AddNote(note));
                },
                RenderStepOutcome::Restarted(_) => {
                    panic!("the engine fell behind although the clock is driven by its own output");
                },
                _ => {},
            }
        }
        let messages = std::mem::take(&mut pending);
        let (buffer, reached) = mixer.call(&cfg, messages);
        if buffer.iter().any(|s| *s != 0) {
            heard_anything = true;
        }
        engine.process_message(MessageToRenderThread::PlaybackReachedTime(reached));
    }
    assert_eq!(sent_count, 3);
    assert!(heard_anything);
}
