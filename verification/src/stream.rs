//! V4L2 streams, and maps from streams to values.

use vstd::prelude::*;

verus! {

/// A unique identifier for a V4L2 stream: a file descriptor that points to a V4L2 char device.
#[derive(Clone, Copy, Debug, PartialEq, Eq, Hash, PartialOrd, Ord, Structural)]
pub struct V4L2Stream {
    pub pid: usize,
    pub fd: usize,
}

impl V4L2Stream {
    pub fn new(pid: usize, fd: usize) -> (r: Self)
        ensures
            r.pid == pid,
            r.fd == fd,
    {
        Self { pid, fd }
    }

    /// Streams are ordered by process, then by descriptor.
    pub open spec fn before(self, other: Self) -> bool {
        self.pid < other.pid || (self.pid == other.pid && self.fd < other.fd)
    }

    /// Whether this stream comes before the other one.
    pub fn precedes(&self, other: &Self) -> (r: bool)
        ensures
            r == self.before(*other),
    {
        self.pid < other.pid || (self.pid == other.pid && self.fd < other.fd)
    }
}

/// Streams in ascending order, each of them once.
pub open spec fn ascending(streams: Seq<V4L2Stream>) -> bool {
    forall|i: int, j: int| 0 <= i < j < streams.len() ==> (#[trigger] streams[i]).before(
        #[trigger] streams[j],
    )
}

/// Two ascending lists of the same streams are the same list.
pub proof fn ascending_is_unique(a: Seq<V4L2Stream>, b: Seq<V4L2Stream>)
    requires
        ascending(a),
        ascending(b),
        forall|s: V4L2Stream| a.contains(s) <==> b.contains(s),
    ensures
        a == b,
    decreases a.len(),
{
    if a.len() == 0 {
        if b.len() > 0 {
            assert(b.contains(b[0]));
        }
        assert(a =~= b);
    } else {
        assert(a.contains(a[0]));
        let i = choose|i: int| 0 <= i < b.len() && b[i] == a[0];
        assert(b.contains(b[0]));
        let j = choose|j: int| 0 <= j < a.len() && a[j] == b[0];
        assert(a[0] == b[0]) by {
            if i > 0 {
                assert(b[0].before(b[i]));
                assert(j > 0);
                assert(a[0].before(a[j]));
            }
        }
        let a1 = a.drop_first();
        let b1 = b.drop_first();
        assert forall|s: V4L2Stream| a1.contains(s) implies b1.contains(s) by {
            let k = choose|k: int| 0 <= k < a1.len() && a1[k] == s;
            assert(a[k + 1] == s);
            assert(a.contains(s));
            assert(a[0].before(a[k + 1]));
            let l = choose|l: int| 0 <= l < b.len() && b[l] == s;
            assert(b1[l - 1] == s);
        }
        assert forall|s: V4L2Stream| b1.contains(s) implies a1.contains(s) by {
            let k = choose|k: int| 0 <= k < b1.len() && b1[k] == s;
            assert(b[k + 1] == s);
            assert(b.contains(s));
            assert(b[0].before(b[k + 1]));
            let l = choose|l: int| 0 <= l < a.len() && a[l] == s;
            assert(a1[l - 1] == s);
        }
        ascending_is_unique(a1, b1);
        assert(a =~= seq![a[0]] + a1);
        assert(b =~= seq![b[0]] + b1);
    }
}

/// The streams of a list of entries.
pub open spec fn keys_of<V>(entries: Seq<(V4L2Stream, V)>) -> Seq<V4L2Stream> {
    entries.map_values(|e: (V4L2Stream, V)| e.0)
}

/// The map that a list of entries stands for.
#[verifier::opaque]
pub open spec fn map_of<V>(entries: Seq<(V4L2Stream, V)>) -> Map<V4L2Stream, V> {
    Map::new(
        |s: V4L2Stream| keys_of(entries).contains(s),
        |s: V4L2Stream| entries[keys_of(entries).index_of(s)].1,
    )
}

/// The map that entries with ascending streams stand for has each of their values, and no others.
pub proof fn lemma_map_of<V>(entries: Seq<(V4L2Stream, V)>)
    requires
        ascending(keys_of(entries)),
    ensures
        forall|i: int|
            0 <= i < entries.len() ==> map_of(entries).contains_key((#[trigger] entries[i]).0)
                && map_of(entries)[entries[i].0] == entries[i].1,
        forall|s: V4L2Stream| #[trigger]
            map_of(entries).contains_key(s) ==> exists|i: int|
                0 <= i < entries.len() && (#[trigger] entries[i]).0 == s,
{
    reveal(map_of);
    let keys = keys_of(entries);
    assert forall|i: int| 0 <= i < entries.len() implies map_of(entries).contains_key(
        (#[trigger] entries[i]).0,
    ) && map_of(entries)[entries[i].0] == entries[i].1 by {
        assert(keys[i] == entries[i].0);
        let j = keys.index_of(entries[i].0);
        assert(keys[j] == keys[i]);
        if i < j {
            assert(keys[i].before(keys[j]));
        } else if j < i {
            assert(keys[j].before(keys[i]));
        }
    }
    assert forall|s: V4L2Stream| #[trigger] map_of(entries).contains_key(s) implies exists|i: int|
        0 <= i < entries.len() && (#[trigger] entries[i]).0 == s by {
        let i = choose|i: int| 0 <= i < keys.len() && keys[i] == s;
        assert(entries[i].0 == s);
    }
}

/// A map from streams to values that is walked in the order of the streams.
pub struct StreamMap<V> {
    entries: Vec<(V4L2Stream, V)>,
}

impl<V> View for StreamMap<V> {
    type V = Map<V4L2Stream, V>;

    closed spec fn view(&self) -> Map<V4L2Stream, V> {
        map_of(self.entries@)
    }
}

impl<V> StreamMap<V> {
    /// The streams that have a value, in the order in which they are walked.
    pub closed spec fn keys(self) -> Seq<V4L2Stream> {
        keys_of(self.entries@)
    }

    /// The streams are in ascending order, and none occurs twice.
    #[verifier::type_invariant]
    pub closed spec fn wf(self) -> bool {
        ascending(keys_of(self.entries@))
    }

    /// The walk meets the streams that have a value, and no others, in ascending order.
    pub proof fn lemma_keys(self)
        requires
            self.wf(),
        ensures
            ascending(self.keys()),
            forall|s: V4L2Stream| #[trigger] self.keys().contains(s) <==> self@.contains_key(s),
            forall|i: int|
                0 <= i < self.keys().len() ==> self@.contains_key(#[trigger] self.keys()[i]),
            self@.dom().len() == self.keys().len(),
    {
        reveal(map_of);
        lemma_map_of(self.entries@);
        let keys = self.keys();
        assert forall|i: int, j: int|
            0 <= i < keys.len() && 0 <= j < keys.len() && i != j implies keys[i] != keys[j] by {
            if i < j {
                assert(keys[i].before(keys[j]));
            } else {
                assert(keys[j].before(keys[i]));
            }
        }
        keys.unique_seq_to_set();
        assert(keys.to_set() =~= self@.dom());
        assert forall|i: int| 0 <= i < self.keys().len() implies self@.contains_key(
            #[trigger] self.keys()[i],
        ) by {
            assert(self@.contains_key(self.entries@[i].0));
        }
    }

    /// A map without values.
    pub fn new() -> (r: Self)
        ensures
            r@ == Map::<V4L2Stream, V>::empty(),
            r.keys() == Seq::<V4L2Stream>::empty(),
    {
        let entries: Vec<(V4L2Stream, V)> = Vec::new();
        proof {
            reveal(map_of);
        }
        assert(map_of(entries@) =~= Map::<V4L2Stream, V>::empty());
        assert(keys_of(entries@) =~= Seq::<V4L2Stream>::empty());
        StreamMap { entries }
    }

    /// How many streams have a value.
    pub fn len(&self) -> (r: usize)
        ensures
            r == self.keys().len(),
            r == self@.dom().len(),
    {
        proof {
            use_type_invariant(self);
            self.lemma_keys();
        }
        self.entries.len()
    }

    /// The stream at a place of the walk.
    pub fn key_at(&self, i: usize) -> (r: V4L2Stream)
        requires
            i < self.keys().len(),
        ensures
            r == self.keys()[i as int],
            self@.contains_key(r),
    {
        proof {
            use_type_invariant(self);
            self.lemma_keys();
        }
        self.entries[i].0
    }

    /// The value at a place of the walk.
    pub fn value_at(&self, i: usize) -> (r: &V)
        requires
            i < self.keys().len(),
        ensures
            self@.contains_key(self.keys()[i as int]),
            *r == self@[self.keys()[i as int]],
    {
        proof {
            use_type_invariant(self);
            lemma_map_of(self.entries@);
            assert(self@[self.entries@[i as int].0] == self.entries@[i as int].1);
            assert(self@.contains_key(self.entries@[i as int].0));
        }
        &self.entries[i].1
    }

    /// How many streams come before the given one.
    fn rank(&self, stream: &V4L2Stream) -> (r: usize)
        ensures
            r <= self.entries.len(),
            forall|i: int| 0 <= i < r ==> (#[trigger] self.entries@[i]).0.before(*stream),
            forall|i: int|
                r <= i < self.entries.len() ==> !(#[trigger] self.entries@[i]).0.before(*stream),
    {
        proof {
            use_type_invariant(self);
        }
        let mut i: usize = 0;
        while i < self.entries.len() && self.entries[i].0.precedes(stream)
            invariant
                i <= self.entries.len(),
                forall|j: int| 0 <= j < i ==> (#[trigger] self.entries@[j]).0.before(*stream),
            decreases self.entries.len() - i,
        {
            i += 1;
        }
        proof {
            assert forall|j: int| i <= j < self.entries.len() implies !(
            #[trigger] self.entries@[j]).0.before(*stream) by {
                let keys = keys_of(self.entries@);
                assert(keys[i as int] == self.entries@[i as int].0);
                assert(keys[j] == self.entries@[j].0);
            }
        }
        i
    }

    /// The value of a stream.
    pub fn get(&self, stream: &V4L2Stream) -> (r: Option<&V>)
        ensures
            match r {
                Some(v) => self@.contains_key(*stream) && *v == self@[*stream],
                None => !self@.contains_key(*stream),
            },
    {
        let i: usize = self.rank(stream);
        proof {
            use_type_invariant(self);
            lemma_map_of(self.entries@);
        }
        if i < self.entries.len() && self.entries[i].0 == *stream {
            assert(self@.contains_key(self.entries@[i as int].0));
            assert(self@[self.entries@[i as int].0] == self.entries@[i as int].1);
            Some(&self.entries[i].1)
        } else {
            proof {
                if self@.contains_key(*stream) {
                    let j = choose|j: int|
                        0 <= j < self.entries@.len() && (#[trigger] self.entries@[j]).0 == *stream;
                    let keys = keys_of(self.entries@);
                    assert(keys[i as int] == self.entries@[i as int].0);
                    assert(keys[j] == self.entries@[j].0);
                    assert(j > i);
                    assert(keys[i as int].before(keys[j]));
                }
            }
            None
        }
    }

    /// Whether a stream has a value.
    pub fn contains_key(&self, stream: &V4L2Stream) -> (r: bool)
        ensures
            r == self@.contains_key(*stream),
    {
        match self.get(stream) {
            Some(_) => true,
            None => false,
        }
    }

    /// Gives a stream a value, in place of the one that it may have had.
    pub fn insert(&mut self, stream: V4L2Stream, value: V)
        ensures
            final(self)@ == old(self)@.insert(stream, value),
            final(self).keys().len() == old(self).keys().len() + if old(self)@.contains_key(stream) {
                0int
            } else {
                1
            },
    {
        let i: usize = self.rank(&stream);
        proof {
            use_type_invariant(&*self);
            lemma_map_of(self.entries@);
        }
        let ghost before = self.entries@;
        let mut entries: Vec<(V4L2Stream, V)> = Vec::new();
        assert(keys_of(entries@) =~= Seq::<V4L2Stream>::empty());
        std::mem::swap(&mut entries, &mut self.entries);
        if i < entries.len() && entries[i].0 == stream {
            entries.remove(i);
        }
        let ghost others = entries@;
        proof {
            lemma_others(before, stream, i as int, others);
        }
        entries.insert(i, (stream, value));
        proof {
            lemma_inserted(others, stream, value, i as int, entries@);
            assert(map_of(entries@) =~= map_of(before).insert(stream, value));
        }
        self.entries = entries;
    }

    /// Takes the value of a stream away.
    pub fn remove(&mut self, stream: &V4L2Stream) -> (r: Option<V>)
        ensures
            final(self)@ == old(self)@.remove(*stream),
            final(self).keys().len() == old(self).keys().len() - if old(self)@.contains_key(*stream) {
                1int
            } else {
                0
            },
            match r {
                Some(v) => old(self)@.contains_key(*stream) && v == old(self)@[*stream],
                None => !old(self)@.contains_key(*stream),
            },
    {
        let i: usize = self.rank(stream);
        proof {
            use_type_invariant(&*self);
            lemma_map_of(self.entries@);
        }
        let ghost before = self.entries@;
        let mut entries: Vec<(V4L2Stream, V)> = Vec::new();
        assert(keys_of(entries@) =~= Seq::<V4L2Stream>::empty());
        std::mem::swap(&mut entries, &mut self.entries);
        let mut r: Option<V> = None;
        if i < entries.len() && entries[i].0 == *stream {
            assert(map_of(before).contains_key(before[i as int].0));
            assert(map_of(before)[before[i as int].0] == before[i as int].1);
            let e = entries.remove(i);
            r = Some(e.1);
        }
        proof {
            lemma_others(before, *stream, i as int, entries@);
        }
        self.entries = entries;
        r
    }

    /// The entries, in the order of the walk.
    pub fn into_entries(self) -> (r: Vec<(V4L2Stream, V)>)
        ensures
            keys_of(r@) == self.keys(),
            ascending(keys_of(r@)),
            forall|s: V4L2Stream| #[trigger] self.keys().contains(s) <==> self@.contains_key(s),
            forall|i: int|
                0 <= i < r.len() ==> self@.contains_key((#[trigger] r@[i]).0) && self@[r@[i].0]
                    == r@[i].1,
    {
        proof {
            use_type_invariant(&self);
            self.lemma_keys();
            lemma_map_of(self.entries@);
        }
        self.entries
    }

    /// Takes over every value of another map.
    pub fn extend(&mut self, other: StreamMap<V>)
        ensures
            final(self)@ == old(self)@.union_prefer_right(other@),
    {
        let mut rest: Vec<(V4L2Stream, V)> = other.into_entries();
        let ghost all = rest@;
        assert(rest@ =~= all.take(rest.len() as int));
        assert(forall|s: V4L2Stream| other@.contains_key(s) ==> keys_of(all).contains(s));
        loop
            invariant
                rest.len() <= all.len(),
                rest@ == all.take(rest.len() as int),
                ascending(keys_of(all)),
                forall|i: int|
                    0 <= i < all.len() ==> other@.contains_key((#[trigger] all[i]).0)
                        && other@[all[i].0] == all[i].1,
                forall|s: V4L2Stream| #[trigger]
                    self@.contains_key(s) ==> old(self)@.contains_key(s) || other@.contains_key(s),
                forall|s: V4L2Stream|
                    old(self)@.contains_key(s) ==> #[trigger] self@.contains_key(s),
                forall|s: V4L2Stream|
                    old(self)@.contains_key(s) && !other@.contains_key(s) ==> #[trigger] self@[s]
                        == old(self)@[s],
                forall|i: int|
                    rest.len() <= i < all.len() ==> self@.contains_key((#[trigger] all[i]).0)
                        && self@[all[i].0] == all[i].1,
            ensures
                rest.len() == 0,
            decreases rest.len(),
        {
            match rest.pop() {
                Some(e) => {
                    assert(e == all[rest.len() as int]);
                    assert(rest@ =~= all.take(rest.len() as int));
                    self.insert(e.0, e.1);
                    assert forall|i: int| rest.len() <= i < all.len() implies self@.contains_key(
                        (#[trigger] all[i]).0,
                    ) && self@[all[i].0] == all[i].1 by {
                        let keys = keys_of(all);
                        if i > rest.len() {
                            assert(keys[rest.len() as int].before(keys[i]));
                        }
                    }
                },
                None => {
                    break ;
                },
            }
        }
        proof {
            let union = old(self)@.union_prefer_right(other@);
            assert forall|s: V4L2Stream|
                #![trigger self@.contains_key(s)]
                #![trigger self@[s]]
                self@.contains_key(s) == union.contains_key(s) && (union.contains_key(s) ==> self@[s]
                    == union[s]) by {
                if other@.contains_key(s) {
                    let keys = keys_of(all);
                    assert(keys.contains(s));
                    let i = choose|i: int| 0 <= i < keys.len() && keys[i] == s;
                    assert(all[i].0 == s);
                }
            }
            assert(self@ =~= union);
        }
    }
}

/// The entries without that of `stream`, whose place is `i`.
proof fn lemma_others<V>(
    entries: Seq<(V4L2Stream, V)>,
    stream: V4L2Stream,
    i: int,
    others: Seq<(V4L2Stream, V)>,
)
    requires
        ascending(keys_of(entries)),
        0 <= i <= entries.len(),
        forall|j: int| 0 <= j < i ==> (#[trigger] entries[j]).0.before(stream),
        forall|j: int| i <= j < entries.len() ==> !(#[trigger] entries[j]).0.before(stream),
        others == if i < entries.len() && entries[i].0 == stream {
            entries.remove(i)
        } else {
            entries
        },
    ensures
        ascending(keys_of(others)),
        i <= others.len(),
        forall|j: int| 0 <= j < i ==> (#[trigger] others[j]).0.before(stream),
        forall|j: int| i <= j < others.len() ==> stream.before((#[trigger] others[j]).0),
        map_of(others) == map_of(entries).remove(stream),
        (i < entries.len() && entries[i].0 == stream) == map_of(entries).contains_key(stream),
{
    let keys = keys_of(entries);
    let rest = keys_of(others);
    let found = i < entries.len() && entries[i].0 == stream;
    lemma_map_of(entries);
    assert(forall|j: int| 0 <= j < entries.len() ==> keys[j] == #[trigger] entries[j].0);
    if !found && i < entries.len() {
        assert forall|j: int| i <= j < entries.len() implies stream.before(
            (#[trigger] entries[j]).0,
        ) by {
            if j > i {
                assert(keys[i].before(keys[j]));
            }
        }
    }
    if found {
        assert(map_of(entries).contains_key(entries[i].0));
        assert forall|a: int, b: int| 0 <= a < b < rest.len() implies (#[trigger] rest[a]).before(
            #[trigger] rest[b],
        ) by {
            let a1 = if a < i { a } else { a + 1 };
            let b1 = if b < i { b } else { b + 1 };
            assert(rest[a] == keys[a1]);
            assert(rest[b] == keys[b1]);
        }
        assert forall|j: int| i <= j < others.len() implies stream.before(
            (#[trigger] others[j]).0,
        ) by {
            assert(keys[i].before(keys[j + 1]));
        }
    }
    lemma_map_of(others);
    assert forall|s: V4L2Stream|
        #![trigger map_of(others).contains_key(s)]
        #![trigger map_of(others)[s]]
        map_of(others).contains_key(s) == map_of(entries).remove(stream).contains_key(s) && (map_of(
            others,
        ).contains_key(s) ==> map_of(others)[s] == map_of(entries)[s]) by {
        if map_of(others).contains_key(s) {
            let j = choose|j: int| 0 <= j < others.len() && (#[trigger] others[j]).0 == s;
            let j1 = if found && j >= i { j + 1 } else { j };
            assert(others[j] == entries[j1]);
            assert(map_of(entries).contains_key(entries[j1].0));
            assert(map_of(entries)[entries[j1].0] == entries[j1].1);
            assert(map_of(others)[others[j].0] == others[j].1);
        }
        if map_of(entries).contains_key(s) && s != stream {
            let j = choose|j: int| 0 <= j < entries.len() && (#[trigger] entries[j]).0 == s;
            let j1 = if found && j > i { j - 1 } else { j };
            assert(others[j1] == entries[j]);
            assert(map_of(others).contains_key(others[j1].0));
        }
    }
    assert(map_of(others) =~= map_of(entries).remove(stream));
}

/// The entries with a new one at its place `i`.
proof fn lemma_inserted<V>(
    others: Seq<(V4L2Stream, V)>,
    stream: V4L2Stream,
    value: V,
    i: int,
    entries: Seq<(V4L2Stream, V)>,
)
    requires
        ascending(keys_of(others)),
        0 <= i <= others.len(),
        forall|j: int| 0 <= j < i ==> (#[trigger] others[j]).0.before(stream),
        forall|j: int| i <= j < others.len() ==> stream.before((#[trigger] others[j]).0),
        entries == others.insert(i, (stream, value)),
    ensures
        ascending(keys_of(entries)),
        map_of(entries) == map_of(others).insert(stream, value),
{
    let rest = keys_of(others);
    let keys = keys_of(entries);
    assert forall|a: int, b: int| 0 <= a < b < keys.len() implies (#[trigger] keys[a]).before(
        #[trigger] keys[b],
    ) by {
        let a1 = if a < i { a } else { a - 1 };
        let b1 = if b < i { b } else { b - 1 };
        if a != i {
            assert(entries[a] == others[a1]);
            assert(keys[a] == rest[a1]);
        }
        if b != i {
            assert(entries[b] == others[b1]);
            assert(keys[b] == rest[b1]);
        }
    }
    lemma_map_of(others);
    lemma_map_of(entries);
    assert forall|s: V4L2Stream|
        #![trigger map_of(entries).contains_key(s)]
        #![trigger map_of(entries)[s]]
        map_of(entries).contains_key(s) == map_of(others).insert(stream, value).contains_key(s)
            && (map_of(entries).contains_key(s) ==> map_of(entries)[s] == map_of(others).insert(
            stream,
            value,
        )[s]) by {
        assert(entries[i] == (stream, value));
        assert(map_of(entries).contains_key(entries[i].0));
        assert(map_of(entries)[entries[i].0] == entries[i].1);
        if map_of(others).contains_key(s) {
            let j = choose|j: int| 0 <= j < others.len() && (#[trigger] others[j]).0 == s;
            let j1 = if j < i { j } else { j + 1 };
            assert(entries[j1] == others[j]);
            assert(map_of(entries).contains_key(entries[j1].0));
            assert(map_of(entries)[entries[j1].0] == entries[j1].1);
            assert(map_of(others)[others[j].0] == others[j].1);
        }
        if map_of(entries).contains_key(s) && s != stream {
            let j = choose|j: int| 0 <= j < entries.len() && (#[trigger] entries[j]).0 == s;
            let j1 = if j < i { j } else { j - 1 };
            assert(entries[j] == others[j1]);
            assert(map_of(others).contains_key(others[j1].0));
        }
    }
    assert(map_of(entries) =~= map_of(others).insert(stream, value));
}

/// Streams are ordered by process first and by descriptor second, and of two streams that are not
/// the same one comes first.
pub proof fn streams_are_ordered_by_process_first(a: V4L2Stream, b: V4L2Stream)
    ensures
        a.pid < b.pid ==> a.before(b) && !b.before(a),
        a.pid == b.pid && a.fd < b.fd ==> a.before(b) && !b.before(a),
        a.pid == b.pid && a.fd == b.fd ==> a == b && !a.before(b),
{
}

} // verus!
