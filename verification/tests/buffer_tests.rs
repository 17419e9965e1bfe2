//! Rolling transcript buffer and circular audio buffer behaviour.

use tactanotes_core::audio_buffer::CircularAudioBuffer;
use tactanotes_core::text::RollingBuffer;

#[test]
fn test_rolling_buffer() {
    let mut buf = RollingBuffer::new(10);
    buf.push("Hello");
    assert_eq!(buf.get_context().as_slice(), b"Hello ");

    buf.push("World");
    // "Hello World " is 12 bytes against a bound of 10; the oldest bytes
    // are evicted.
    assert!(!buf.get_context().is_empty());
}

#[test]
fn rolling_buffer_eviction_scenario() {
    // Bound 10, push "Hello" then "World": the result is non-empty, no
    // longer than bound + 1, and does not lead with the split fragment
    // "llo" — the hard cut extends through the split word.
    let mut buf = RollingBuffer::new(10);
    buf.push("Hello");
    buf.push("World");
    let content = buf.get_context().clone();
    assert!(!content.is_empty());
    assert!(content.len() <= 11);
    assert!(!content.starts_with(b"llo"));
    assert_eq!(content.as_slice(), b"World ".as_slice());
}

#[test]
fn rolling_buffer_earliest_mark_wins() {
    // A newline before the first period is the earlier sentence mark, so
    // the cut stops there.
    let mut buf = RollingBuffer::new(4);
    buf.push("x\ny.");
    assert_eq!(buf.get_context().as_slice(), b"y. ".as_slice());
}

#[test]
fn rolling_buffer_sentence_boundary_eviction() {
    // With a sentence mark in the overflow window, eviction cuts just
    // past the mark and strips the leading space.
    let mut buf = RollingBuffer::new(20);
    buf.push("One.");
    assert_eq!(buf.get_context().as_slice(), b"One. ");
    buf.push("Two three four five.");
    // "One. Two three four five. " is 26 > 20; the first '.' is at index
    // 3, so "One." and the following space are evicted.
    assert_eq!(buf.get_context().as_slice(), b"Two three four five. ");
}

#[test]
fn rolling_buffer_length_bound_after_push() {
    // With the buffer within its bound before the push, the bound
    // `len <= max + |push| + 1` holds after it.
    let mut buf = RollingBuffer::new(30);
    buf.push("a bunch of words without marks");
    assert!(buf.get_context().len() <= 30 + 30 + 1);
    buf.push("more text. with a sentence mark");
    assert!(buf.get_context().len() <= 30 + 31 + 1);
}

#[test]
fn rolling_buffer_clear_and_empty_push() {
    let mut buf = RollingBuffer::new(50);
    buf.push("");
    assert!(buf.get_context().is_empty());
    buf.push("something");
    assert!(!buf.get_context().is_empty());
    buf.clear();
    assert!(buf.get_context().is_empty());
}

#[test]
fn circular_buffer_respects_capacity() {
    let mut buf = CircularAudioBuffer::new();
    let chunk = vec![7u32; 100];
    buf.push(&chunk);
    assert_eq!(buf.len(), 100);
    assert!(!buf.is_empty());

    // Push past the 480 000-sample capacity: the length stays at the
    // capacity and the oldest samples are gone.
    let big = vec![9u32; 480_000];
    buf.push(&big);
    assert_eq!(buf.len(), 480_000);
    let drained = buf.read_all();
    assert_eq!(drained.len(), 480_000);
    assert!(drained.iter().all(|&s| s == 9));
    assert!(buf.is_empty());
}

#[test]
fn circular_buffer_keeps_fifo_order() {
    let mut buf = CircularAudioBuffer::new();
    buf.push(&[1, 2, 3]);
    buf.push(&[4, 5]);
    assert_eq!(buf.read_all(), vec![1, 2, 3, 4, 5]);
    buf.push(&[6]);
    buf.clear();
    assert_eq!(buf.len(), 0);
}
