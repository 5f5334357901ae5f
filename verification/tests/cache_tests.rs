use codecophony::cache::RenderCache;
use codecophony::note::{NoteDescriptor, FluidsynthDirectlyRenderableMIDINote,
    FluidsynthDirectlyRenderableMIDIInstrument};

fn descriptor(pitch: i32) -> NoteDescriptor {
    NoteDescriptor::Midi(FluidsynthDirectlyRenderableMIDINote {
        duration: 500_000,
        pitch,
        velocity: 100,
        instrument: FluidsynthDirectlyRenderableMIDIInstrument::pitched(1),
    })
}

#[test]
fn lookup_misses_until_inserted() {
    let mut cache = RenderCache::new();
    assert!(!cache.has(&descriptor(60), 44100));
    assert!(cache.lookup(&descriptor(60), 44100).is_none());
    cache.insert(descriptor(60), 44100, vec![1, 2, 3]);
    assert!(cache.has(&descriptor(60), 44100));
    assert_eq!(cache.lookup(&descriptor(60), 44100), Some(vec![1, 2, 3]));
}

#[test]
fn keys_are_descriptor_and_sample_rate() {
    let mut cache = RenderCache::new();
    cache.insert(descriptor(60), 44100, vec![1]);
    cache.insert(descriptor(60), 48000, vec![2]);
    cache.insert(descriptor(61), 44100, vec![3]);
    assert_eq!(cache.lookup(&descriptor(60), 44100), Some(vec![1]));
    assert_eq!(cache.lookup(&descriptor(60), 48000), Some(vec![2]));
    assert_eq!(cache.lookup(&descriptor(61), 44100), Some(vec![3]));
}

#[test]
fn rendering_twice_yields_identical_buffers() {
    // Cache determinism: the second rendering of a descriptor returns the
    // first buffer byte for byte, whatever the second synthesis produced.
    let mut cache = RenderCache::new();
    let first = cache.render_cached(descriptor(60), 44100, vec![10, 20, 30]);
    let second = cache.render_cached(descriptor(60), 44100, vec![99, 99]);
    assert_eq!(first, vec![10, 20, 30]);
    assert_eq!(second, first);
}

#[test]
fn a_second_insert_of_the_same_key_is_ignored() {
    let mut cache = RenderCache::new();
    cache.insert(descriptor(60), 44100, vec![7]);
    cache.insert(descriptor(60), 44100, vec![8]);
    assert_eq!(cache.lookup(&descriptor(60), 44100), Some(vec![7]));
}
