use std::collections::hash_map::DefaultHasher;
use std::hash::{Hash, Hasher};

use renderer::util::handle::Handle;
use renderer::util::stopwatch::Stopwatch;

struct Marker;

fn hash_of<T: Hash>(value: &T) -> u64 {
    let mut hasher = DefaultHasher::new();
    value.hash(&mut hasher);
    hasher.finish()
}

#[test]
fn handles_compare_by_index() {
    let a: Handle<Marker> = Handle::new(4);
    let b: Handle<Marker> = Handle::new(4);
    let c: Handle<Marker> = Handle::new(5);
    assert!(a == b);
    assert!(a != c);
    assert_eq!(a.clone().index, 4);
}

#[test]
fn equal_handles_hash_alike() {
    let a: Handle<Marker> = Handle::new(11);
    let b: Handle<Marker> = Handle::new(11);
    assert_eq!(hash_of(&a), hash_of(&b));
    assert_eq!(hash_of(&a), hash_of(&11usize));
}

#[test]
fn handle_is_copy() {
    let a: Handle<Marker> = Handle::new(2);
    let b = a;
    assert_eq!(a.index, b.index);
}

#[test]
fn running_average_matches_its_nanoseconds() {
    let mut watch = Stopwatch::new(3);
    for _ in 0..5 {
        watch.tick();
    }
    let nanos = watch.running_average_nanos();
    assert_eq!(watch.running_average().as_nanos(), nanos);
}

#[test]
fn default_stopwatch_averages_after_one_tick() {
    let mut watch = Stopwatch::default();
    watch.tick();
    let nanos = watch.running_average_nanos();
    assert_eq!(watch.running_average().as_nanos(), nanos);
}

#[test]
fn recorded_samples_come_newest_first_and_the_oldest_drops() {
    let mut sw = renderer::util::stopwatch::Stopwatch::new(2);
    sw.record(5);
    sw.record(7);
    assert_eq!(sw.running_average_nanos(), 6);
    sw.record(9);
    assert_eq!(sw.running_average_nanos(), 8);
    assert_eq!(sw.running_average(), std::time::Duration::from_nanos(8));
}

#[test]
fn a_stopwatch_keeping_no_samples_drops_every_sample() {
    let mut sw = renderer::util::stopwatch::Stopwatch::new(0);
    sw.record(5);
    sw.tick();
    let mut one = renderer::util::stopwatch::Stopwatch::new(1);
    one.record(4);
    one.record(10);
    assert_eq!(one.running_average_nanos(), 10);
}
