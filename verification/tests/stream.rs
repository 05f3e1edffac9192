use v4l2top::stream::{StreamMap, V4L2Stream};

fn s(pid: usize, fd: usize) -> V4L2Stream {
    V4L2Stream::new(pid, fd)
}

fn keys<V>(map: &StreamMap<V>) -> Vec<V4L2Stream> {
    (0..map.len()).map(|i| map.key_at(i)).collect()
}

#[test]
fn streams_are_ordered_by_process_and_descriptor() {
    for (a, b) in [(s(1, 9), s(2, 0)), (s(1, 1), s(1, 2))] {
        assert!(a.precedes(&b));
        assert!(!b.precedes(&a));
        assert!(a < b);
    }
    assert!(!s(1, 1).precedes(&s(1, 1)));
    assert_eq!(s(3, 4), V4L2Stream { pid: 3, fd: 4 });
}

#[test]
fn maps_hold_one_value_for_a_stream() {
    let mut map: StreamMap<u32> = StreamMap::new();
    assert_eq!(map.len(), 0);
    map.insert(s(2, 1), 21);
    map.insert(s(1, 5), 15);
    map.insert(s(2, 0), 20);
    map.insert(s(2, 1), 99);
    assert_eq!(map.len(), 3);
    assert_eq!(keys(&map), vec![s(1, 5), s(2, 0), s(2, 1)]);
    assert_eq!(map.get(&s(2, 1)), Some(&99));
    assert_eq!(map.get(&s(2, 2)), None);
    assert!(map.contains_key(&s(1, 5)));
    assert!(!map.contains_key(&s(5, 1)));
    assert_eq!(*map.value_at(1), 20);
}

#[test]
fn values_can_be_taken_away() {
    let mut map: StreamMap<&str> = StreamMap::new();
    map.insert(s(1, 1), "a");
    map.insert(s(1, 2), "b");
    assert_eq!(map.remove(&s(1, 1)), Some("a"));
    assert_eq!(map.remove(&s(1, 1)), None);
    assert_eq!(keys(&map), vec![s(1, 2)]);
    assert_eq!(map.into_entries(), vec![(s(1, 2), "b")]);
}

#[test]
fn maps_take_over_the_values_of_others() {
    let mut a: StreamMap<u32> = StreamMap::new();
    a.insert(s(1, 1), 1);
    a.insert(s(2, 2), 2);
    let mut b: StreamMap<u32> = StreamMap::new();
    b.insert(s(2, 2), 20);
    b.insert(s(0, 7), 7);
    a.extend(b);
    assert_eq!(a.into_entries(), vec![(s(0, 7), 7), (s(1, 1), 1), (s(2, 2), 20)]);
}
