//! The rolling history of the usage of each stream, as a chart of stacked lines.

use std::collections::VecDeque;

use vstd::prelude::*;

use crate::codec::{current_or_zero, total_of, usage_or_zero, StreamInfo};
use crate::stream::{ascending, StreamMap, V4L2Stream};
use crate::text::{append_chars, decimal, decimal_chars, from_chars, to_chars};

verus! {

/// The color of a line.
#[derive(Clone, Copy, Debug, PartialEq, Eq, Structural)]
pub enum LineColor {
    Red,
    Green,
    Blue,
    Yellow,
    Cyan,
    Magenta,
    LightRed,
    LightGreen,
    LightBlue,
    LightYellow,
    LightCyan,
    LightMagenta,
    White,
}

/// How many distinguishable colors there are for lines.
pub const COLOR_POOL_LEN: usize = 12;

/// The color at a place of the pool, which starts over at its end.
pub open spec fn color_at(idx: int) -> LineColor {
    let i = idx % COLOR_POOL_LEN as int;
    if i == 0 {
        LineColor::Red
    } else if i == 1 {
        LineColor::Green
    } else if i == 2 {
        LineColor::Blue
    } else if i == 3 {
        LineColor::Yellow
    } else if i == 4 {
        LineColor::Cyan
    } else if i == 5 {
        LineColor::Magenta
    } else if i == 6 {
        LineColor::LightRed
    } else if i == 7 {
        LineColor::LightGreen
    } else if i == 8 {
        LineColor::LightBlue
    } else if i == 9 {
        LineColor::LightYellow
    } else if i == 10 {
        LineColor::LightCyan
    } else {
        LineColor::LightMagenta
    }
}

/// The color at a place of the pool.
pub fn pool_color(idx: usize) -> (r: LineColor)
    ensures
        r == color_at(idx as int),
{
    match idx % COLOR_POOL_LEN {
        0 => LineColor::Red,
        1 => LineColor::Green,
        2 => LineColor::Blue,
        3 => LineColor::Yellow,
        4 => LineColor::Cyan,
        5 => LineColor::Magenta,
        6 => LineColor::LightRed,
        7 => LineColor::LightGreen,
        8 => LineColor::LightBlue,
        9 => LineColor::LightYellow,
        10 => LineColor::LightCyan,
        _ => LineColor::LightMagenta,
    }
}

/// The usage of each stream at a given tick.
pub struct Snapshot {
    pub tick: u64,
    pub per_stream: StreamMap<u8>,
}

/// A line of the chart: the stream on whose layer it lies, its color, and its points, each a tick
/// and a sum of usages.
pub struct ChartLine {
    pub stream: V4L2Stream,
    pub color: LineColor,
    pub points: Vec<(u64, u128)>,
}

/// The places of the color pool: those that streams have, those that are free again, and the next
/// one that was never used.
#[verifier::ext_equal]
pub struct Pool {
    pub colors: Map<V4L2Stream, int>,
    pub free: Seq<int>,
    pub next: int,
}

impl Pool {
    /// The pool after the given streams gave their places back, in turn.
    pub open spec fn recycled(self, gone: Seq<V4L2Stream>) -> Pool
        decreases gone.len(),
    {
        if gone.len() == 0 {
            self
        } else {
            let p = self.recycled(gone.drop_last());
            Pool {
                colors: p.colors.remove(gone.last()),
                free: p.free.push(p.colors[gone.last()]),
                next: p.next,
            }
        }
    }

    /// The pool after each of the given streams that has no place took one, in turn: the one that
    /// was given back last, and if none is free the next new one.
    pub open spec fn colored(self, streams: Seq<V4L2Stream>) -> Pool
        decreases streams.len(),
    {
        if streams.len() == 0 {
            self
        } else {
            let p = self.colored(streams.drop_last());
            let s = streams.last();
            if p.colors.contains_key(s) {
                p
            } else if p.free.len() > 0 {
                Pool {
                    colors: p.colors.insert(s, p.free.last()),
                    free: p.free.drop_last(),
                    next: p.next,
                }
            } else {
                Pool {
                    colors: p.colors.insert(s, p.next),
                    free: p.free,
                    next: p.next + 1,
                }
            }
        }
    }

    /// A place is given out: it is free again, or some stream has it.
    pub open spec fn has_place(self, place: int) -> bool {
        ||| self.free.contains(place)
        ||| exists|s: V4L2Stream| #[trigger]
            self.colors.contains_key(s) && self.colors[s] == place
    }

    /// The places that streams have and those that are free are together the ones up to the next
    /// new one, each of them once.
    pub open spec fn wf(self) -> bool {
        &&& self.next >= 0
        &&& forall|place: int| 0 <= place < self.next ==> #[trigger] self.has_place(place)
        &&& forall|s: V4L2Stream| #[trigger]
            self.colors.contains_key(s) ==> 0 <= self.colors[s] < self.next
        &&& forall|i: int| 0 <= i < self.free.len() ==> 0 <= #[trigger] self.free[i] < self.next
        &&& forall|s: V4L2Stream, t: V4L2Stream| #[trigger]
            self.colors.contains_key(s) && #[trigger] self.colors.contains_key(t) && s != t
                ==> self.colors[s] != self.colors[t]
        &&& forall|i: int, j: int|
            0 <= i < j < self.free.len() ==> #[trigger] self.free[i] != #[trigger] self.free[j]
        &&& forall|s: V4L2Stream, i: int| #[trigger]
            self.colors.contains_key(s) && 0 <= i < self.free.len() ==> self.colors[s]
                != #[trigger] self.free[i]
    }
}

/// A stream occurs in some snapshot.
pub open spec fn visible(snapshots: Seq<Snapshot>, stream: V4L2Stream) -> bool {
    exists|i: int| 0 <= i < snapshots.len() && (#[trigger] snapshots[i]).per_stream@.contains_key(
        stream,
    )
}

/// Those of the streams that occur neither in a snapshot nor among the current streams.
pub open spec fn gone_of(
    streams: Seq<V4L2Stream>,
    snapshots: Seq<Snapshot>,
    current: Map<V4L2Stream, StreamInfo>,
) -> Seq<V4L2Stream>
    decreases streams.len(),
{
    if streams.len() == 0 {
        Seq::empty()
    } else {
        let before = gone_of(streams.drop_last(), snapshots, current);
        if visible(snapshots, streams.last()) || current.contains_key(streams.last()) {
            before
        } else {
            before.push(streams.last())
        }
    }
}

/// The usage of a stream at a tick, zero where it was not there.
pub open spec fn usage_at(snapshot: Snapshot, stream: V4L2Stream) -> nat {
    if snapshot.per_stream@.contains_key(stream) {
        snapshot.per_stream@[stream] as nat
    } else {
        0
    }
}

/// The sum of the usages of streams at a tick.
pub open spec fn cumulative(snapshot: Snapshot, streams: Seq<V4L2Stream>) -> nat
    decreases streams.len(),
{
    if streams.len() == 0 {
        0
    } else {
        cumulative(snapshot, streams.drop_last()) + usage_at(snapshot, streams.last())
    }
}

/// The points of a line: at each tick the sum of the usages, and where that is another one than
/// before, in front of it the old sum at the same tick, so that the line goes up and down in steps.
pub open spec fn step_points(snapshots: Seq<Snapshot>, streams: Seq<V4L2Stream>) -> Seq<(u64, u128)>
    decreases snapshots.len(),
{
    if snapshots.len() == 0 {
        Seq::empty()
    } else {
        let before = step_points(snapshots.drop_last(), streams);
        let tick = snapshots.last().tick;
        let sum = cumulative(snapshots.last(), streams) as u128;
        if before.len() > 0 && before.last().1 != sum {
            before.push((tick, before.last().1)).push((tick, sum))
        } else {
            before.push((tick, sum))
        }
    }
}

/// The streams of the lines of a chart.
pub open spec fn line_streams(lines: Seq<ChartLine>) -> Seq<V4L2Stream> {
    lines.map_values(|l: ChartLine| l.stream)
}

/// The color of a stream's line.
pub open spec fn color_of(colors: Map<V4L2Stream, usize>, stream: V4L2Stream) -> LineColor {
    if colors.contains_key(stream) {
        color_at(colors[stream] as int)
    } else {
        LineColor::White
    }
}

/// The chart of some snapshots: a line for each stream that occurs in them, in ascending order,
/// with the points of its usage on top of that of the streams before it.
pub open spec fn is_chart(
    lines: Seq<ChartLine>,
    snapshots: Seq<Snapshot>,
    colors: Map<V4L2Stream, usize>,
) -> bool {
    &&& ascending(line_streams(lines))
    &&& forall|s: V4L2Stream| #[trigger] line_streams(lines).contains(s) <==> visible(snapshots, s)
    &&& forall|i: int|
        0 <= i < lines.len() ==> {
            &&& (#[trigger] lines[i]).color == color_of(colors, lines[i].stream)
            &&& lines[i].points@ == step_points(snapshots, line_streams(lines).take(i + 1))
        }
}

/// Rolling time-series history of the usage of each stream.
///
/// Records one snapshot per tick and builds cumulative (stacked) lines.
pub struct UsageHistoryRenderer {
    pub snapshots: VecDeque<Snapshot>,
    pub max_points: usize,
    pub tick: u64,
    /// The place in the color pool of each stream that has one.
    pub pid_colors: StreamMap<usize>,
    /// Places that are free for reuse.
    pub free_colors: Vec<usize>,
    pub next_color: usize,
    /// The chart, which every `record()` builds anew.
    pub chart_data: Vec<ChartLine>,
    pub x_min: i128,
    pub x_max: i128,
}

impl UsageHistoryRenderer {
    /// The color pool.
    pub open spec fn pool(self) -> Pool {
        Pool {
            colors: self.pid_colors@.map_values(|idx: usize| idx as int),
            free: self.free_colors@.map_values(|idx: usize| idx as int),
            next: self.next_color as int,
        }
    }

    /// The color pool once the given streams are the current ones: those that are in no snapshot
    /// and not current have given their places back, and each of the current ones has one.
    pub open spec fn repooled(self, usage: StreamMap<StreamInfo>) -> Pool {
        self.pool().recycled(gone_of(self.pid_colors.keys(), self.snapshots@, usage@)).colored(
            usage.keys(),
        )
    }

    /// The snapshots are those of the last ticks, and no more than may be kept; the color pool is
    /// in order, and every stream of a snapshot has a color.
    pub open spec fn wf(self) -> bool {
        &&& self.max_points > 0 ==> self.snapshots@.len() <= self.max_points
        &&& self.snapshots@.len() <= self.tick
        &&& forall|i: int|
            0 <= i < self.snapshots@.len() ==> (#[trigger] self.snapshots@[i]).tick == self.tick
                - self.snapshots@.len() + i
        &&& self.pool().wf()
        &&& self.pid_colors.keys().len() + self.free_colors.len() == self.next_color
        &&& forall|s: V4L2Stream| #[trigger]
            visible(self.snapshots@, s) ==> self.pid_colors@.contains_key(s)
    }

    /// Nothing was recorded yet, and no color was given out.
    pub open spec fn is_unused(self) -> bool {
        &&& self.snapshots@.len() == 0
        &&& self.tick == 0
        &&& self.pool().colors.dom() == Set::<V4L2Stream>::empty()
        &&& self.pool().free.len() == 0
        &&& self.pool().next == 0
        &&& self.chart_data@.len() == 0
        &&& self.x_min == 0
        &&& self.x_max == 1
    }

    /// A history without snapshots, which will keep at most `max_points` of them.
    pub fn new(max_points: usize) -> (r: Self)
        ensures
            r.wf(),
            r.is_unused(),
            r.max_points == max_points,
    {
        let r = UsageHistoryRenderer {
            snapshots: VecDeque::new(),
            max_points,
            tick: 0,
            pid_colors: StreamMap::new(),
            free_colors: Vec::new(),
            next_color: 0,
            chart_data: Vec::new(),
            x_min: 0,
            x_max: 1,
        };
        assert(r.pool().colors.dom() =~= Set::<V4L2Stream>::empty());
        r
    }

    /// Gives the colors of the streams that are in no snapshot and not current back to the pool.
    fn recycle_colors(&mut self, usage: &StreamMap<StreamInfo>)
        requires
            old(self).wf(),
        ensures
            final(self).pool() == old(self).pool().recycled(
                gone_of(old(self).pid_colors.keys(), old(self).snapshots@, usage@),
            ),
            final(self).wf(),
            final(self).snapshots@ == old(self).snapshots@,
            final(self).max_points == old(self).max_points,
            final(self).tick == old(self).tick,
            final(self).chart_data@ == old(self).chart_data@,
            final(self).x_min == old(self).x_min,
            final(self).x_max == old(self).x_max,
    {
        let ghost keys = self.pid_colors.keys();
        let mut gone: Vec<V4L2Stream> = Vec::new();
        let mut i: usize = 0;
        while i < self.pid_colors.len()
            invariant
                i <= keys.len(),
                *self == *old(self),
                keys == self.pid_colors.keys(),
                gone@ == gone_of(keys.take(i as int), self.snapshots@, usage@),
            decreases keys.len() - i,
        {
            let stream: V4L2Stream = self.pid_colors.key_at(i);
            assert(keys.take(i + 1).drop_last() =~= keys.take(i as int));
            if !is_visible(&self.snapshots, &stream) && !usage.contains_key(&stream) {
                gone.push(stream);
            }
            i += 1;
        }
        assert(keys.take(keys.len() as int) =~= keys);
        let ghost before = self.pool();
        let ghost all = gone@;
        proof {
            use_type_invariant(&self.pid_colors);
            self.pid_colors.lemma_keys();
            lemma_gone(keys, self.snapshots@, usage@);
        }
        let mut k: usize = 0;
        assert(all.take(0) =~= Seq::empty());
        while k < gone.len()
            invariant
                k <= gone.len(),
                gone@ == all,
                all.no_duplicates(),
                forall|s: V4L2Stream| #[trigger]
                    all.contains(s) ==> before.colors.contains_key(s) && !visible(
                        old(self).snapshots@,
                        s,
                    ),
                self.pool() == before.recycled(all.take(k as int)),
                self.wf(),
                forall|s: V4L2Stream| #[trigger]
                    self.pid_colors@.contains_key(s) <==> before.colors.contains_key(s)
                        && !all.take(k as int).contains(s),
                self.snapshots@ == old(self).snapshots@,
                self.max_points == old(self).max_points,
                self.tick == old(self).tick,
                self.chart_data@ == old(self).chart_data@,
                self.x_min == old(self).x_min,
                self.x_max == old(self).x_max,
            decreases gone.len() - k,
        {
            let stream: V4L2Stream = gone[k];
            let ghost p = self.pool();
            proof {
                let done = all.take(k as int);
                let next = all.take(k + 1);
                assert(next.drop_last() =~= done);
                assert(all.contains(all[k as int]));
                assert(!done.contains(stream)) by {
                    if done.contains(stream) {
                        let j = choose|j: int| 0 <= j < done.len() && done[j] == stream;
                        assert(all[j] == all[k as int]);
                    }
                }
                assert(p.colors.contains_key(stream));
                lemma_give_back(p, stream);
                assert forall|s: V4L2Stream| next.contains(s) <==> done.contains(s) || s
                    == stream by {
                    if done.contains(s) {
                        let j = choose|j: int| 0 <= j < done.len() && done[j] == s;
                        assert(next[j] == s);
                    }
                    if next.contains(s) && s != stream {
                        let j = choose|j: int| 0 <= j < next.len() && next[j] == s;
                        assert(done[j] == s);
                    }
                    assert(next[k as int] == stream);
                }
            }
            if let Some(idx) = self.pid_colors.remove(&stream) {
                self.free_colors.push(idx);
            }
            assert(self.pool() =~= Pool {
                colors: p.colors.remove(stream),
                free: p.free.push(p.colors[stream]),
                next: p.next,
            });
            k += 1;
        }
        assert(all.take(all.len() as int) =~= all);
    }

    /// Gives each of the current streams a color.
    fn assign_colors(&mut self, usage: &StreamMap<StreamInfo>)
        requires
            old(self).wf(),
        ensures
            final(self).pool() == old(self).pool().colored(usage.keys()),
            final(self).wf(),
            final(self).snapshots@ == old(self).snapshots@,
            final(self).max_points == old(self).max_points,
            final(self).tick == old(self).tick,
            final(self).chart_data@ == old(self).chart_data@,
            final(self).x_min == old(self).x_min,
            final(self).x_max == old(self).x_max,
    {
        let ghost streams = usage.keys();
        let ghost before = self.pool();
        let mut i: usize = 0;
        assert(streams.take(0) =~= Seq::empty());
        while i < usage.len()
            invariant
                i <= streams.len(),
                streams == usage.keys(),
                self.pool() == before.colored(streams.take(i as int)),
                self.wf(),
                self.snapshots@ == old(self).snapshots@,
                self.max_points == old(self).max_points,
                self.tick == old(self).tick,
                self.chart_data@ == old(self).chart_data@,
                self.x_min == old(self).x_min,
                self.x_max == old(self).x_max,
            decreases streams.len() - i,
        {
            let stream: V4L2Stream = usage.key_at(i);
            assert(streams.take(i + 1).drop_last() =~= streams.take(i as int));
            let ghost p = self.pool();
            if !self.pid_colors.contains_key(&stream) {
                match self.free_colors.pop() {
                    Some(idx) => {
                        proof {
                            lemma_take_free(p, stream);
                        }
                        self.pid_colors.insert(stream, idx);
                        assert(self.pool() =~= Pool {
                            colors: p.colors.insert(stream, p.free.last()),
                            free: p.free.drop_last(),
                            next: p.next,
                        });
                    },
                    None => {
                        proof {
                            lemma_take_new(p, stream);
                        }
                        let idx: usize = self.next_color;
                        self.pid_colors.insert(stream, idx);
                        let taken: usize = self.pid_colors.len();
                        assert(taken == idx + 1);
                        self.next_color = idx + 1;
                        assert(self.pool() =~= Pool {
                            colors: p.colors.insert(stream, p.next),
                            free: p.free,
                            next: p.next + 1,
                        });
                    },
                }
            }
            i += 1;
        }
        assert(streams.take(streams.len() as int) =~= streams);
    }
}

/// A place that is given back is free, and no other place changes.
proof fn lemma_give_back(p: Pool, s: V4L2Stream)
    requires
        p.wf(),
        p.colors.contains_key(s),
    ensures
        (Pool { colors: p.colors.remove(s), free: p.free.push(p.colors[s]), next: p.next }).wf(),
{
    let q = Pool { colors: p.colors.remove(s), free: p.free.push(p.colors[s]), next: p.next };
    assert(forall|t: V4L2Stream| #[trigger] q.colors.contains_key(t) ==> p.colors.contains_key(t));
    assert forall|i: int, j: int| 0 <= i < j < q.free.len() implies #[trigger] q.free[i]
        != #[trigger] q.free[j] by {
        assert(q.free[i] == p.free[i]);
    }
    assert forall|t: V4L2Stream, i: int| #[trigger]
        q.colors.contains_key(t) && 0 <= i < q.free.len() implies q.colors[t]
        != #[trigger] q.free[i] by {
        assert(p.colors.contains_key(t));
        if i < p.free.len() {
            assert(q.free[i] == p.free[i]);
        }
    }
    assert forall|place: int| 0 <= place < q.next implies #[trigger] q.has_place(place) by {
        assert(p.has_place(place));
        if p.free.contains(place) {
            let i = choose|i: int| 0 <= i < p.free.len() && p.free[i] == place;
            assert(q.free[i] == place);
        } else {
            let t = choose|t: V4L2Stream| #[trigger]
                p.colors.contains_key(t) && p.colors[t] == place;
            if t == s {
                assert(q.free[p.free.len() as int] == place);
            } else {
                assert(q.colors.contains_key(t) && q.colors[t] == place);
            }
        }
    }
}

/// A stream that takes a free place.
proof fn lemma_take_free(p: Pool, s: V4L2Stream)
    requires
        p.wf(),
        !p.colors.contains_key(s),
        p.free.len() > 0,
    ensures
        (Pool {
            colors: p.colors.insert(s, p.free.last()),
            free: p.free.drop_last(),
            next: p.next,
        }).wf(),
{
    let q = Pool {
        colors: p.colors.insert(s, p.free.last()),
        free: p.free.drop_last(),
        next: p.next,
    };
    let n = p.free.len() - 1;
    assert(p.free[n] == p.free.last());
    assert forall|t: V4L2Stream| #[trigger] q.colors.contains_key(t) implies t == s || (
    p.colors.contains_key(t) && q.colors[t] == p.colors[t] && p.colors[t] != p.free[n]) by {}
    assert forall|place: int| 0 <= place < q.next implies #[trigger] q.has_place(place) by {
        assert(p.has_place(place));
        if p.free.contains(place) {
            let i = choose|i: int| 0 <= i < p.free.len() && p.free[i] == place;
            if i == n {
                assert(q.colors.contains_key(s) && q.colors[s] == place);
            } else {
                assert(q.free[i] == place);
            }
        } else {
            let t = choose|t: V4L2Stream| #[trigger]
                p.colors.contains_key(t) && p.colors[t] == place;
            assert(q.colors.contains_key(t) && q.colors[t] == place);
        }
    }
}

/// A stream that takes a new place.
proof fn lemma_take_new(p: Pool, s: V4L2Stream)
    requires
        p.wf(),
        !p.colors.contains_key(s),
    ensures
        (Pool {
            colors: p.colors.insert(s, p.next),
            free: p.free,
            next: p.next + 1,
        }).wf(),
{
    let q = Pool {
        colors: p.colors.insert(s, p.next),
        free: p.free,
        next: p.next + 1,
    };
    assert forall|t: V4L2Stream| #[trigger] q.colors.contains_key(t) implies t == s || (
    p.colors.contains_key(t) && q.colors[t] == p.colors[t] && p.colors[t] < p.next) by {}
    assert forall|place: int| 0 <= place < q.next implies #[trigger] q.has_place(place) by {
        if place == p.next {
            assert(q.colors.contains_key(s) && q.colors[s] == place);
        } else {
            assert(p.has_place(place));
            if !p.free.contains(place) {
                let t = choose|t: V4L2Stream| #[trigger]
                    p.colors.contains_key(t) && p.colors[t] == place;
                assert(q.colors.contains_key(t) && q.colors[t] == place);
            }
        }
    }
}

/// Those that are gone are among the streams, each once, and in no snapshot.
proof fn lemma_gone(
    streams: Seq<V4L2Stream>,
    snapshots: Seq<Snapshot>,
    current: Map<V4L2Stream, StreamInfo>,
)
    requires
        ascending(streams),
    ensures
        gone_of(streams, snapshots, current).no_duplicates(),
        forall|s: V4L2Stream| #[trigger]
            gone_of(streams, snapshots, current).contains(s) <==> streams.contains(s) && !visible(
                snapshots,
                s,
            ) && !current.contains_key(s),
    decreases streams.len(),
{
    if streams.len() > 0 {
        let rest = streams.drop_last();
        let last = streams.last();
        let g0 = gone_of(rest, snapshots, current);
        let g1 = gone_of(streams, snapshots, current);
        lemma_gone(rest, snapshots, current);
        assert(!rest.contains(last)) by {
            if rest.contains(last) {
                let j = choose|j: int| 0 <= j < rest.len() && rest[j] == last;
                assert(streams[j].before(streams[streams.len() - 1]));
            }
        }
        assert forall|s: V4L2Stream| streams.contains(s) <==> rest.contains(s) || s == last by {
            if streams.contains(s) && s != last {
                let j = choose|j: int| 0 <= j < streams.len() && streams[j] == s;
                assert(rest[j] == s);
            }
            if rest.contains(s) {
                let j = choose|j: int| 0 <= j < rest.len() && rest[j] == s;
                assert(streams[j] == s);
            }
            assert(streams[streams.len() - 1] == last);
        }
        if g1 != g0 {
            assert(g1 == g0.push(last));
            assert(!g0.contains(last));
            assert forall|s: V4L2Stream| g1.contains(s) <==> g0.contains(s) || s == last by {
                if g1.contains(s) && s != last {
                    let j = choose|j: int| 0 <= j < g1.len() && g1[j] == s;
                    assert(g0[j] == s);
                }
                if g0.contains(s) {
                    let j = choose|j: int| 0 <= j < g0.len() && g0[j] == s;
                    assert(g1[j] == s);
                }
                assert(g1[g0.len() as int] == last);
            }
            assert forall|i: int, j: int|
                0 <= i < g1.len() && 0 <= j < g1.len() && i != j implies g1[i] != g1[j] by {
                if i == g0.len() {
                    assert(g0.contains(g0[j]));
                } else if j == g0.len() {
                    assert(g0.contains(g0[i]));
                }
            }
        }
    }
}

/// Whether a stream occurs in some snapshot.
fn is_visible(snapshots: &VecDeque<Snapshot>, stream: &V4L2Stream) -> (r: bool)
    ensures
        r == visible(snapshots@, *stream),
{
    let mut i: usize = 0;
    while i < snapshots.len()
        invariant
            i <= snapshots@.len(),
            forall|j: int|
                0 <= j < i ==> !(#[trigger] snapshots@[j]).per_stream@.contains_key(*stream),
        decreases snapshots@.len() - i,
    {
        if snapshots[i].per_stream.contains_key(stream) {
            return true;
        }
        i += 1;
    }
    false
}

/// The streams that occur in snapshots, in ascending order.
fn visible_streams(snapshots: &VecDeque<Snapshot>) -> (r: Vec<V4L2Stream>)
    ensures
        ascending(r@),
        forall|s: V4L2Stream| #[trigger] r@.contains(s) <==> visible(snapshots@, s),
{
    let mut found: StreamMap<()> = StreamMap::new();
    let mut i: usize = 0;
    while i < snapshots.len()
        invariant
            i <= snapshots@.len(),
            forall|s: V4L2Stream| #[trigger]
                found@.contains_key(s) <==> visible(snapshots@.take(i as int), s),
        decreases snapshots@.len() - i,
    {
        let per_stream: &StreamMap<u8> = &snapshots[i].per_stream;
        let ghost keys = per_stream.keys();
        let ghost done = snapshots@.take(i as int);
        let ghost next = snapshots@.take(i + 1);
        proof {
            use_type_invariant(per_stream);
            per_stream.lemma_keys();
        }
        let mut j: usize = 0;
        while j < per_stream.len()
            invariant
                j <= keys.len(),
                keys == per_stream.keys(),
                forall|s: V4L2Stream| #[trigger]
                    found@.contains_key(s) <==> visible(done, s) || keys.take(j as int).contains(s),
            decreases keys.len() - j,
        {
            let stream: V4L2Stream = per_stream.key_at(j);
            let ghost was = found@;
            found.insert(stream, ());
            proof {
                let k0 = keys.take(j as int);
                let k1 = keys.take(j + 1);
                assert(k1 =~= k0.push(stream));
                assert forall|s: V4L2Stream| #[trigger] found@.contains_key(s) <==> visible(done, s)
                    || k1.contains(s) by {
                    assert(found@.contains_key(s) <==> was.contains_key(s) || s == stream);
                    if k0.contains(s) {
                        let x = choose|x: int| 0 <= x < k0.len() && k0[x] == s;
                        assert(k1[x] == s);
                    }
                    if k1.contains(s) && s != stream {
                        let x = choose|x: int| 0 <= x < k1.len() && k1[x] == s;
                        assert(k0[x] == s);
                    }
                    assert(k1[j as int] == stream);
                }
            }
            j += 1;
        }
        proof {
            assert(keys.take(keys.len() as int) =~= keys);
            assert forall|s: V4L2Stream| #[trigger] found@.contains_key(s) <==> visible(
                next,
                s,
            ) by {
                if visible(done, s) {
                    let x = choose|x: int|
                        0 <= x < done.len() && (#[trigger] done[x]).per_stream@.contains_key(s);
                    assert(next[x].per_stream@.contains_key(s));
                }
                if keys.contains(s) {
                    assert(next[i as int].per_stream@.contains_key(s));
                }
                if visible(next, s) {
                    let x = choose|x: int|
                        0 <= x < next.len() && (#[trigger] next[x]).per_stream@.contains_key(s);
                    if x < i {
                        assert(done[x].per_stream@.contains_key(s));
                    } else {
                        assert(keys.contains(s));
                    }
                }
            }
        }
        i += 1;
    }
    assert(snapshots@.take(snapshots@.len() as int) =~= snapshots@);
    let ghost keys = found.keys();
    proof {
        use_type_invariant(&found);
        found.lemma_keys();
    }
    let mut r: Vec<V4L2Stream> = Vec::new();
    let mut k: usize = 0;
    while k < found.len()
        invariant
            k <= keys.len(),
            keys == found.keys(),
            r@ == keys.take(k as int),
        decreases keys.len() - k,
    {
        r.push(found.key_at(k));
        assert(keys.take(k + 1) =~= keys.take(k as int).push(keys[k as int]));
        k += 1;
    }
    assert(keys.take(keys.len() as int) =~= keys);
    r
}

/// The sum of the usages of the first `n` streams at a tick.
fn sum_at(snapshot: &Snapshot, streams: &Vec<V4L2Stream>, n: usize) -> (r: u128)
    requires
        n <= streams.len(),
    ensures
        r == cumulative(*snapshot, streams@.take(n as int)),
{
    let mut sum: u128 = 0;
    let mut i: usize = 0;
    while i < n
        invariant
            i <= n <= streams.len(),
            sum == cumulative(*snapshot, streams@.take(i as int)),
            sum <= 255 * i,
        decreases n - i,
    {
        assert(streams@.take(i + 1).drop_last() =~= streams@.take(i as int));
        let p: u8 = match snapshot.per_stream.get(&streams[i]) {
            Some(p) => *p,
            None => 0,
        };
        sum = sum + p as u128;
        i += 1;
    }
    sum
}

/// The points of the line on top of the first `n` streams.
fn line_points(snapshots: &VecDeque<Snapshot>, streams: &Vec<V4L2Stream>, n: usize) -> (r: Vec<
    (u64, u128),
>)
    requires
        n <= streams.len(),
    ensures
        r@ == step_points(snapshots@, streams@.take(n as int)),
{
    let ghost layer = streams@.take(n as int);
    let mut points: Vec<(u64, u128)> = Vec::new();
    let mut prev_y: Option<u128> = None;
    let mut i: usize = 0;
    assert(snapshots@.take(0) =~= Seq::empty());
    while i < snapshots.len()
        invariant
            i <= snapshots@.len(),
            n <= streams.len(),
            layer == streams@.take(n as int),
            points@ == step_points(snapshots@.take(i as int), layer),
            match prev_y {
                Some(y) => points@.len() > 0 && points@.last().1 == y,
                None => points@.len() == 0,
            },
        decreases snapshots@.len() - i,
    {
        let snapshot: &Snapshot = &snapshots[i];
        assert(snapshots@.take(i + 1).drop_last() =~= snapshots@.take(i as int));
        assert(snapshots@.take(i + 1).last() == *snapshot);
        let x: u64 = snapshot.tick;
        let y: u128 = sum_at(snapshot, streams, n);
        if let Some(py) = prev_y {
            if py != y {
                points.push((x, py));
            }
        }
        points.push((x, y));
        prev_y = Some(y);
        i += 1;
    }
    assert(snapshots@.take(snapshots@.len() as int) =~= snapshots@);
    points
}

impl UsageHistoryRenderer {
    /// The bounds of the chart: a window of fixed width that ends at the last tick, so that the
    /// lines scroll.
    pub open spec fn has_window(self) -> bool {
        let last = self.snapshots@.last().tick as int;
        &&& self.x_min == last - self.max_points
        &&& self.x_max == if self.max_points == 0 {
            last + 1
        } else {
            last
        }
    }

    /// Recomputes the cumulative stacked lines from the snapshots.
    pub fn rebuild_chart_data(&mut self)
        ensures
            final(self).snapshots == old(self).snapshots,
            final(self).max_points == old(self).max_points,
            final(self).tick == old(self).tick,
            final(self).pid_colors == old(self).pid_colors,
            final(self).free_colors == old(self).free_colors,
            final(self).next_color == old(self).next_color,
            is_chart(
                final(self).chart_data@,
                final(self).snapshots@,
                final(self).pid_colors@,
            ),
            if final(self).snapshots@.len() == 0 {
                final(self).x_min == old(self).x_min && final(self).x_max == old(self).x_max
            } else {
                final(self).has_window()
            },
    {
        self.chart_data.clear();
        if self.snapshots.len() == 0 {
            assert(line_streams(self.chart_data@) =~= Seq::empty());
            return;
        }
        let streams: Vec<V4L2Stream> = visible_streams(&self.snapshots);
        let last: usize = self.snapshots.len() - 1;
        self.x_max = self.snapshots[last].tick as i128;
        self.x_min = self.x_max - self.max_points as i128;
        if self.x_max <= self.x_min {
            self.x_max = self.x_min + 1;
        }
        let mut layer: usize = 0;
        while layer < streams.len()
            invariant
                layer <= streams.len(),
                self.snapshots == old(self).snapshots,
                self.max_points == old(self).max_points,
                self.tick == old(self).tick,
                self.pid_colors == old(self).pid_colors,
                self.free_colors == old(self).free_colors,
                self.next_color == old(self).next_color,
                self.snapshots@.len() > 0,
                self.has_window(),
                self.chart_data.len() == layer,
                forall|i: int|
                    0 <= i < layer ==> {
                        &&& (#[trigger] self.chart_data@[i]).stream == streams@[i]
                        &&& self.chart_data@[i].color == color_of(self.pid_colors@, streams@[i])
                        &&& self.chart_data@[i].points@ == step_points(
                            self.snapshots@,
                            streams@.take(i + 1),
                        )
                    },
            decreases streams.len() - layer,
        {
            let stream: V4L2Stream = streams[layer];
            let color: LineColor = match self.pid_colors.get(&stream) {
                Some(idx) => pool_color(*idx),
                None => LineColor::White,
            };
            let points: Vec<(u64, u128)> = line_points(&self.snapshots, &streams, layer + 1);
            self.chart_data.push(ChartLine { stream, color, points });
            layer += 1;
        }
        assert(line_streams(self.chart_data@) =~= streams@);
    }

    /// The snapshots that are left when a new one is added.
    pub open spec fn remaining(self) -> Seq<Snapshot> {
        if self.snapshots@.len() == self.max_points && self.snapshots@.len() > 0 {
            self.snapshots@.drop_first()
        } else {
            self.snapshots@
        }
    }

    /// Records a new snapshot of the current usage.
    pub fn record(&mut self, usage: &StreamMap<StreamInfo>)
        requires
            old(self).wf(),
            old(self).tick < u64::MAX,
        ensures
            final(self).wf(),
            final(self).max_points == old(self).max_points,
            recorded(*old(self), *final(self), *usage),
            forall|s: V4L2Stream| #[trigger]
                final(self).pid_colors@.contains_key(s) <==> visible(old(self).snapshots@, s)
                    || usage@.contains_key(s),
            forall|s: V4L2Stream| #[trigger]
                final(self).pid_colors@.contains_key(s) && old(self).pid_colors@.contains_key(s)
                    ==> final(self).pid_colors@[s] == old(self).pid_colors@[s],
    {
        proof {
            use_type_invariant(usage);
            use_type_invariant(&self.pid_colors);
        }
        self.recycle_colors(usage);
        let ghost pool = self.pool();
        self.assign_colors(usage);
        proof {
            use_type_invariant(usage);
            usage.lemma_keys();
            lemma_colored(pool, usage.keys());
        }
        let ghost before = self.snapshots@;
        if self.snapshots.len() == self.max_points {
            let _ = self.snapshots.pop_front();
        }
        let ghost kept = self.snapshots@;
        assert(kept =~= old(self).remaining());
        let per_stream: StreamMap<u8> = current_usages(usage);
        let snapshot = Snapshot { tick: self.tick, per_stream };
        self.snapshots.push_back(snapshot);
        self.tick = self.tick + 1;
        proof {
            assert(self.snapshots@.drop_last() =~= kept);
            assert forall|s: V4L2Stream| #[trigger]
                visible(self.snapshots@, s) implies self.pid_colors@.contains_key(s) by {
                let i = choose|i: int|
                    0 <= i < self.snapshots@.len() && (
                    #[trigger] self.snapshots@[i]).per_stream@.contains_key(s);
                if i < kept.len() {
                    let j = if kept.len() < before.len() { i + 1 } else { i };
                    assert(before[j] == self.snapshots@[i]);
                    assert(before[j].per_stream@.contains_key(s));
                    assert(visible(before, s));
                } else {
                    assert(usage@.contains_key(s));
                    assert(usage.keys().contains(s));
                    assert(self.pool().colors.contains_key(s));
                }
            }
        }
        self.rebuild_chart_data();
        proof {
            assert forall|s: V4L2Stream| #[trigger]
                self.pid_colors@.contains_key(s) <==> visible(old(self).snapshots@, s)
                    || usage@.contains_key(s) by {
                visible_and_current_streams_are_colored(*old(self), *usage, s);
                assert(self.pool().colors.contains_key(s) <==> self.pid_colors@.contains_key(s));
            }
            assert forall|s: V4L2Stream| #[trigger]
                self.pid_colors@.contains_key(s) && old(self).pid_colors@.contains_key(
                    s,
                ) implies self.pid_colors@[s] == old(self).pid_colors@[s] by {
                visible_and_current_streams_are_colored(*old(self), *usage, s);
                assert(self.pool().colors[s] == self.pid_colors@[s]);
            }
        }
    }
}

/// A history after a new snapshot of the given streams.
pub open spec fn recorded(
    before: UsageHistoryRenderer,
    after: UsageHistoryRenderer,
    infos: StreamMap<StreamInfo>,
) -> bool {
    &&& after.tick == before.tick + 1
    &&& after.pool() == before.repooled(infos)
    &&& after.snapshots@.len() > 0
    &&& after.snapshots@.drop_last() == before.remaining()
    &&& after.snapshots@.last().tick == before.tick
    &&& after.snapshots@.last().per_stream@ == infos@.map_values(
        |i: StreamInfo| usage_or_zero(i),
    )
    &&& is_chart(after.chart_data@, after.snapshots@, after.pid_colors@)
    &&& after.has_window()
}

/// A line as it is drawn.
pub struct Dataset {
    pub name: String,
    pub color: LineColor,
    pub points: Vec<(u64, u128)>,
}

/// The chart as it is drawn. The datasets come in the order in which they are painted.
pub struct ChartView {
    pub datasets: Vec<Dataset>,
    pub x_min: i128,
    pub x_max: i128,
}

/// The name of a stream's line: the process and the descriptor.
pub open spec fn line_name(stream: V4L2Stream) -> Seq<char> {
    decimal(stream.pid as nat) + " "@ + decimal(stream.fd as nat)
}

/// The chart is that of a history, the top layer first.
pub open spec fn shows_chart(chart: ChartView, history: UsageHistoryRenderer) -> bool {
    &&& chart.datasets.len() == history.chart_data.len()
    &&& forall|i: int|
        0 <= i < chart.datasets.len() ==> {
            let line = history.chart_data@[history.chart_data.len() - 1 - i];
            &&& (#[trigger] chart.datasets@[i]).name@ == line_name(line.stream)
            &&& chart.datasets@[i].color == line.color
            &&& chart.datasets@[i].points@ == line.points@
        }
    &&& chart.x_min == history.x_min
    &&& chart.x_max == history.x_max
}

/// The name of a stream's line.
fn name_line(stream: V4L2Stream) -> (r: String)
    ensures
        r@ == line_name(stream),
{
    let mut name: Vec<char> = decimal_chars(stream.pid as u64);
    append_chars(&mut name, &to_chars(" "));
    append_chars(&mut name, &decimal_chars(stream.fd as u64));
    from_chars(&name)
}

/// A copy of points.
fn copy_points(points: &Vec<(u64, u128)>) -> (r: Vec<(u64, u128)>)
    ensures
        r@ == points@,
{
    let mut r: Vec<(u64, u128)> = Vec::new();
    let mut i: usize = 0;
    while i < points.len()
        invariant
            i <= points.len(),
            r@ == points@.take(i as int),
        decreases points.len() - i,
    {
        r.push(points[i]);
        assert(points@.take(i + 1) =~= points@.take(i as int).push(points@[i as int]));
        i += 1;
    }
    assert(points@.take(points.len() as int) =~= points@);
    r
}

impl UsageHistoryRenderer {
    /// What is drawn: the top layer first, so that lower layers (of earlier streams) are painted
    /// over it.
    pub fn render(&self) -> (r: ChartView)
        ensures
            shows_chart(r, *self),
    {
        let mut datasets: Vec<Dataset> = Vec::new();
        let n: usize = self.chart_data.len();
        while datasets.len() < n
            invariant
                n == self.chart_data.len(),
                datasets.len() <= n,
                forall|i: int|
                    0 <= i < datasets.len() ==> {
                        let line = self.chart_data@[n - 1 - i];
                        &&& (#[trigger] datasets@[i]).name@ == line_name(line.stream)
                        &&& datasets@[i].color == line.color
                        &&& datasets@[i].points@ == line.points@
                    },
            decreases n - datasets.len(),
        {
            let line: &ChartLine = &self.chart_data[n - 1 - datasets.len()];
            datasets.push(
                Dataset {
                    name: name_line(line.stream),
                    color: line.color,
                    points: copy_points(&line.points),
                },
            );
        }
        ChartView { datasets, x_min: self.x_min, x_max: self.x_max }
    }
}

/// The current usage of each stream.
fn current_usages(usage: &StreamMap<StreamInfo>) -> (r: StreamMap<u8>)
    ensures
        r@ == usage@.map_values(|i: StreamInfo| usage_or_zero(i)),
{
    let ghost keys = usage.keys();
    let ghost all = usage@.map_values(|i: StreamInfo| usage_or_zero(i));
    let mut r: StreamMap<u8> = StreamMap::new();
    let mut i: usize = 0;
    while i < usage.len()
        invariant
            i <= keys.len(),
            keys == usage.keys(),
            all == usage@.map_values(|i: StreamInfo| usage_or_zero(i)),
            forall|s: V4L2Stream| #[trigger]
                r@.contains_key(s) <==> keys.take(i as int).contains(s),
            forall|s: V4L2Stream| #[trigger]
                r@.contains_key(s) ==> all.contains_key(s) && r@[s] == all[s],
        decreases keys.len() - i,
    {
        let stream: V4L2Stream = usage.key_at(i);
        let ghost was = r@;
        r.insert(stream, current_or_zero(usage.value_at(i)));
        proof {
            let k0 = keys.take(i as int);
            let k1 = keys.take(i + 1);
            assert forall|s: V4L2Stream| #[trigger] r@.contains_key(s) <==> k1.contains(s) by {
                assert(r@.contains_key(s) <==> was.contains_key(s) || s == stream);
                if k0.contains(s) {
                    let x = choose|x: int| 0 <= x < k0.len() && k0[x] == s;
                    assert(k1[x] == s);
                }
                if k1.contains(s) && s != stream {
                    let x = choose|x: int| 0 <= x < k1.len() && k1[x] == s;
                    assert(k0[x] == s);
                }
                assert(k1[i as int] == stream);
            }
            assert forall|s: V4L2Stream| #[trigger] r@.contains_key(s) implies all.contains_key(s)
                && r@[s] == all[s] by {
                if s != stream {
                    assert(was.contains_key(s));
                }
            }
        }
        i += 1;
    }
    proof {
        use_type_invariant(usage);
        usage.lemma_keys();
        assert(keys.take(keys.len() as int) =~= keys);
        assert forall|s: V4L2Stream| all.contains_key(s) implies #[trigger] r@.contains_key(s) by {
            assert(usage@.contains_key(s));
            assert(keys.contains(s));
        }
        assert(r@ =~= all);
    }
    r
}

/// Giving colors out takes none away, and it is the given streams that get one.
proof fn lemma_colored(p: Pool, streams: Seq<V4L2Stream>)
    ensures
        forall|s: V4L2Stream| #[trigger]
            p.colored(streams).colors.contains_key(s) <==> p.colors.contains_key(s)
                || streams.contains(s),
        forall|s: V4L2Stream| #[trigger]
            p.colors.contains_key(s) ==> p.colored(streams).colors[s] == p.colors[s],
        p.wf() ==> p.colored(streams).wf(),
    decreases streams.len(),
{
    if streams.len() > 0 {
        let rest = streams.drop_last();
        let last = streams.last();
        lemma_colored(p, rest);
        let q = p.colored(rest);
        let r = p.colored(streams);
        assert forall|s: V4L2Stream| streams.contains(s) <==> rest.contains(s) || s == last by {
            if streams.contains(s) && s != last {
                let j = choose|j: int| 0 <= j < streams.len() && streams[j] == s;
                assert(rest[j] == s);
            }
            if rest.contains(s) {
                let j = choose|j: int| 0 <= j < rest.len() && rest[j] == s;
                assert(streams[j] == s);
            }
            assert(streams[streams.len() - 1] == last);
        }
        assert forall|s: V4L2Stream| #[trigger]
            r.colors.contains_key(s) <==> p.colors.contains_key(s) || streams.contains(s) by {
            assert(q.colors.contains_key(s) <==> p.colors.contains_key(s) || rest.contains(s));
        }
        assert forall|s: V4L2Stream| #[trigger] p.colors.contains_key(s) implies r.colors[s]
            == p.colors[s] by {
            assert(q.colors.contains_key(s));
        }
        if p.wf() && !q.colors.contains_key(last) {
            if q.free.len() > 0 {
                lemma_take_free(q, last);
            } else {
                lemma_take_new(q, last);
            }
        }
    }
}

/// What giving places back leaves: the places of all others.
proof fn lemma_recycled(p: Pool, gone: Seq<V4L2Stream>)
    requires
        gone.no_duplicates(),
        forall|s: V4L2Stream| #[trigger] gone.contains(s) ==> p.colors.contains_key(s),
    ensures
        forall|s: V4L2Stream| #[trigger]
            p.recycled(gone).colors.contains_key(s) <==> p.colors.contains_key(s)
                && !gone.contains(s),
        forall|s: V4L2Stream| #[trigger]
            p.recycled(gone).colors.contains_key(s) ==> p.recycled(gone).colors[s] == p.colors[s],
        p.wf() ==> p.recycled(gone).wf(),
    decreases gone.len(),
{
    if gone.len() > 0 {
        let rest = gone.drop_last();
        let last = gone.last();
        let n = gone.len() - 1;
        assert(gone[n] == last);
        assert(gone.contains(last));
        assert forall|s: V4L2Stream| gone.contains(s) <==> rest.contains(s) || s == last by {
            if gone.contains(s) && s != last {
                let j = choose|j: int| 0 <= j < gone.len() && gone[j] == s;
                assert(rest[j] == s);
            }
            if rest.contains(s) {
                let j = choose|j: int| 0 <= j < rest.len() && rest[j] == s;
                assert(gone[j] == s);
            }
        }
        assert(!rest.contains(last)) by {
            if rest.contains(last) {
                let j = choose|j: int| 0 <= j < rest.len() && rest[j] == last;
                assert(gone[j] == gone[n]);
            }
        }
        assert(forall|s: V4L2Stream| #[trigger] rest.contains(s) ==> gone.contains(s));
        lemma_recycled(p, rest);
        let q = p.recycled(rest);
        let r = p.recycled(gone);
        assert(q.colors.contains_key(last));
        assert forall|s: V4L2Stream| #[trigger]
            r.colors.contains_key(s) <==> p.colors.contains_key(s) && !gone.contains(s) by {
            assert(q.colors.contains_key(s) <==> p.colors.contains_key(s) && !rest.contains(s));
        }
        assert forall|s: V4L2Stream| #[trigger] r.colors.contains_key(s) implies r.colors[s]
            == p.colors[s] by {
            assert(q.colors.contains_key(s));
        }
        if p.wf() {
            lemma_give_back(q, last);
        }
    }
}

/// The color pool stays in order: the places that streams have and those that are free are
/// together the ones up to the next new one, each of them once, whatever the current streams are.
pub proof fn pool_stays_in_order(h: UsageHistoryRenderer, usage: StreamMap<StreamInfo>)
    requires
        h.pid_colors.wf(),
        h.pool().wf(),
    ensures
        h.repooled(usage).wf(),
{
    let gone = gone_of(h.pid_colors.keys(), h.snapshots@, usage@);
    h.pid_colors.lemma_keys();
    lemma_gone(h.pid_colors.keys(), h.snapshots@, usage@);
    assert forall|s: V4L2Stream| #[trigger] gone.contains(s) implies h.pool().colors.contains_key(
        s,
    ) by {
        assert(h.pid_colors.keys().contains(s));
    }
    lemma_recycled(h.pool(), gone);
    lemma_colored(h.pool().recycled(gone), usage.keys());
}

/// The streams that have a color are those in a snapshot and the current ones, where every stream
/// of a snapshot had one before; and a stream that had a color and still has one has the same.
pub proof fn visible_and_current_streams_are_colored(
    h: UsageHistoryRenderer,
    usage: StreamMap<StreamInfo>,
    stream: V4L2Stream,
)
    requires
        h.pid_colors.wf(),
        usage.wf(),
        visible(h.snapshots@, stream) ==> h.pid_colors@.contains_key(stream),
    ensures
        h.repooled(usage).colors.contains_key(stream) <==> visible(h.snapshots@, stream)
            || usage@.contains_key(stream),
        h.pid_colors@.contains_key(stream) && h.repooled(usage).colors.contains_key(stream)
            ==> h.repooled(usage).colors[stream] == h.pid_colors@[stream],
{
    let gone = gone_of(h.pid_colors.keys(), h.snapshots@, usage@);
    h.pid_colors.lemma_keys();
    usage.lemma_keys();
    lemma_gone(h.pid_colors.keys(), h.snapshots@, usage@);
    assert forall|s: V4L2Stream| #[trigger] gone.contains(s) implies h.pool().colors.contains_key(
        s,
    ) by {
        assert(h.pid_colors.keys().contains(s));
    }
    lemma_recycled(h.pool(), gone);
    let between = h.pool().recycled(gone);
    lemma_colored(between, usage.keys());
    assert(h.pool().colors.contains_key(stream) <==> h.pid_colors@.contains_key(stream));
    assert(gone.contains(stream) <==> h.pid_colors.keys().contains(stream) && !visible(
        h.snapshots@,
        stream,
    ) && !usage@.contains_key(stream));
    assert(h.pid_colors.keys().contains(stream) <==> h.pid_colors@.contains_key(stream));
    assert(usage.keys().contains(stream) <==> usage@.contains_key(stream));
    assert(between.colors.contains_key(stream) <==> h.pid_colors@.contains_key(stream)
        && !gone.contains(stream));
}

/// No two streams have the same place in the color pool, and as long as no more places were ever
/// needed than there are colors, no two streams have the same color.
pub proof fn colors_are_distinct(h: UsageHistoryRenderer, a: V4L2Stream, b: V4L2Stream)
    requires
        h.pool().wf(),
        h.pid_colors@.contains_key(a),
        h.pid_colors@.contains_key(b),
        a != b,
    ensures
        h.pid_colors@[a] != h.pid_colors@[b],
        h.next_color <= COLOR_POOL_LEN ==> color_of(h.pid_colors@, a) != color_of(h.pid_colors@, b),
{
    let pool = h.pool();
    assert(pool.colors.contains_key(a) && pool.colors.contains_key(b));
    assert(pool.colors[a] < pool.next && pool.colors[b] < pool.next);
}

/// Each line of a chart has a color of the pool.
pub proof fn lines_are_colored(h: UsageHistoryRenderer, i: int)
    requires
        h.wf(),
        is_chart(h.chart_data@, h.snapshots@, h.pid_colors@),
        0 <= i < h.chart_data.len(),
    ensures
        h.chart_data@[i].color != LineColor::White,
{
    let streams = line_streams(h.chart_data@);
    assert(streams[i] == h.chart_data@[i].stream);
    assert(streams.contains(streams[i]));
    assert(visible(h.snapshots@, streams[i]));
    assert(h.chart_data@[i].color == color_of(h.pid_colors@, streams[i]));
}

/// The layers are stacked: at each tick, the line of a later stream is not below that of an earlier
/// one.
pub proof fn layers_are_stacked(
    snapshot: Snapshot,
    streams: Seq<V4L2Stream>,
    lower: int,
    upper: int,
)
    requires
        0 <= lower <= upper <= streams.len(),
    ensures
        cumulative(snapshot, streams.take(lower)) <= cumulative(snapshot, streams.take(upper)),
    decreases upper,
{
    if lower < upper {
        assert(streams.take(upper).drop_last() =~= streams.take(upper - 1));
        layers_are_stacked(snapshot, streams, lower, upper - 1);
    }
}

/// A line goes in steps: from one point to the next it changes its tick or its sum, not both.
pub proof fn points_are_steps(snapshots: Seq<Snapshot>, streams: Seq<V4L2Stream>, i: int)
    requires
        0 <= i < step_points(snapshots, streams).len() - 1,
    ensures
        ({
            let points = step_points(snapshots, streams);
            points[i].0 == points[i + 1].0 || points[i].1 == points[i + 1].1
        }),
    decreases snapshots.len(),
{
    let before = step_points(snapshots.drop_last(), streams);
    if i < before.len() - 1 {
        points_are_steps(snapshots.drop_last(), streams, i);
    }
}

/// Streams that add nothing do not change a sum.
proof fn lemma_same_sum(snapshot: Snapshot, all: Seq<V4L2Stream>, some: Seq<V4L2Stream>)
    requires
        ascending(all),
        ascending(some),
        forall|s: V4L2Stream| #[trigger] some.contains(s) ==> all.contains(s),
        forall|s: V4L2Stream| #[trigger]
            all.contains(s) && !some.contains(s) ==> usage_at(snapshot, s) == 0,
    ensures
        cumulative(snapshot, all) == cumulative(snapshot, some),
    decreases all.len(),
{
    if all.len() == 0 {
        if some.len() > 0 {
            assert(some.contains(some[0]));
        }
    } else {
        let last = all.last();
        let rest = all.drop_last();
        let n = all.len() - 1;
        assert(all[n] == last);
        assert(all.contains(last));
        assert forall|s: V4L2Stream| #[trigger] rest.contains(s) implies all.contains(s) && s
            != last by {
            let j = choose|j: int| 0 <= j < rest.len() && rest[j] == s;
            assert(all[j] == s);
            assert(all[j].before(all[n]));
        }
        assert forall|s: V4L2Stream| all.contains(s) && s != last implies #[trigger] rest.contains(
            s,
        ) by {
            let j = choose|j: int| 0 <= j < all.len() && all[j] == s;
            assert(rest[j] == s);
        }
        if some.len() > 0 && some.last() == last {
            let fewer = some.drop_last();
            let m = some.len() - 1;
            assert forall|s: V4L2Stream| #[trigger] fewer.contains(s) implies rest.contains(s) by {
                let j = choose|j: int| 0 <= j < fewer.len() && fewer[j] == s;
                assert(some[j] == s);
                assert(some[j].before(some[m]));
                assert(some.contains(s));
            }
            assert forall|s: V4L2Stream| #[trigger]
                rest.contains(s) && !fewer.contains(s) implies usage_at(snapshot, s) == 0 by {
                if some.contains(s) {
                    let j = choose|j: int| 0 <= j < some.len() && some[j] == s;
                    assert(fewer[j] == s);
                }
            }
            lemma_same_sum(snapshot, rest, fewer);
        } else {
            assert(!some.contains(last)) by {
                if some.contains(last) {
                    let j = choose|j: int| 0 <= j < some.len() && some[j] == last;
                    let m = some.len() - 1;
                    assert(some[j].before(some[m]));
                    assert(some.contains(some[m]));
                    let k = choose|k: int| 0 <= k < all.len() && all[k] == some[m];
                    assert(all[k] == some[m]);
                    if k < n {
                        assert(all[k].before(all[n]));
                    }
                }
            }
            assert forall|s: V4L2Stream| #[trigger] some.contains(s) implies rest.contains(s) by {
                assert(all.contains(s));
            }
            lemma_same_sum(snapshot, rest, some);
        }
    }
}

/// The sum of the usages in a snapshot of streams is the sum of their current usages.
proof fn lemma_snapshot_sum(
    snapshot: Snapshot,
    infos: Map<V4L2Stream, StreamInfo>,
    streams: Seq<V4L2Stream>,
)
    requires
        snapshot.per_stream@ == infos.map_values(|i: StreamInfo| usage_or_zero(i)),
        forall|i: int| 0 <= i < streams.len() ==> infos.contains_key(#[trigger] streams[i]),
    ensures
        cumulative(snapshot, streams) == total_of(infos, streams),
    decreases streams.len(),
{
    if streams.len() > 0 {
        lemma_snapshot_sum(snapshot, infos, streams.drop_last());
        assert(infos.contains_key(streams[streams.len() - 1]));
    }
}

/// The top line ends at the total: at the last tick it stands at the sum of the current usages of
/// all streams.
pub proof fn top_line_is_the_total(
    before: UsageHistoryRenderer,
    after: UsageHistoryRenderer,
    infos: StreamMap<StreamInfo>,
)
    requires
        infos.wf(),
        recorded(before, after, infos),
        after.chart_data@.len() > 0,
    ensures
        after.chart_data@.last().points@.last() == (
            before.tick,
            total_of(infos@, infos.keys()) as u128,
        ),
{
    let snapshot = after.snapshots@.last();
    let streams = line_streams(after.chart_data@);
    let n = streams.len() - 1;
    infos.lemma_keys();
    assert forall|s: V4L2Stream| #[trigger] infos.keys().contains(s) implies streams.contains(s) by {
        assert(after.snapshots@[after.snapshots@.len() - 1].per_stream@.contains_key(s));
        assert(visible(after.snapshots@, s));
    }
    lemma_same_sum(snapshot, streams, infos.keys());
    lemma_snapshot_sum(snapshot, infos@, infos.keys());
    assert(streams.take(n + 1) =~= streams);
    assert(after.chart_data@[n].points@ == step_points(after.snapshots@, streams.take(n + 1)));
}

/// Each point stands at the tick of a snapshot.
proof fn lemma_point_tick(snapshots: Seq<Snapshot>, streams: Seq<V4L2Stream>, i: int)
    requires
        0 <= i < step_points(snapshots, streams).len(),
    ensures
        exists|j: int|
            0 <= j < snapshots.len() && (#[trigger] snapshots[j]).tick == step_points(
                snapshots,
                streams,
            )[i].0,
    decreases snapshots.len(),
{
    let rest = snapshots.drop_last();
    let before = step_points(rest, streams);
    if i < before.len() {
        lemma_point_tick(rest, streams, i);
        let j = choose|j: int|
            0 <= j < rest.len() && (#[trigger] rest[j]).tick == before[i].0;
        assert(snapshots[j].tick == before[i].0);
    } else {
        assert(snapshots[snapshots.len() - 1].tick == step_points(snapshots, streams)[i].0);
    }
}

/// The chart shows every point: they all lie in the window.
pub proof fn points_lie_in_the_window(
    h: UsageHistoryRenderer,
    streams: Seq<V4L2Stream>,
    i: int,
)
    requires
        h.wf(),
        h.max_points > 0,
        h.snapshots@.len() > 0,
        h.has_window(),
        0 <= i < step_points(h.snapshots@, streams).len(),
    ensures
        h.x_min < step_points(h.snapshots@, streams)[i].0 <= h.x_max,
{
    let snapshots = h.snapshots@;
    lemma_point_tick(snapshots, streams, i);
    let j = choose|j: int|
        0 <= j < snapshots.len() && (#[trigger] snapshots[j]).tick == step_points(
            snapshots,
            streams,
        )[i].0;
    assert(snapshots[j].tick == h.tick - snapshots.len() + j);
    assert(snapshots[snapshots.len() - 1].tick == h.tick - 1);
}

/// The history keeps the latest snapshots: with each new one the oldest leaves once there are as
/// many as may be kept, and not before.
pub proof fn history_is_bounded(h: UsageHistoryRenderer)
    requires
        h.wf(),
        h.max_points > 0,
    ensures
        h.remaining().len() < h.max_points,
        h.snapshots@.len() < h.max_points ==> h.remaining() == h.snapshots@,
{
}

/// There are twelve colors, all of them different, and they come around: two places have the same
/// color exactly if they are a multiple of twelve apart.
pub proof fn colors_come_around(i: nat, j: nat)
    ensures
        color_at(i as int) == color_at(j as int) <==> i % 12 == j % 12,
        color_at(i as int) != LineColor::White,
{
}

/// A place that is free is taken before a new one: new places are taken only once none is free, and
/// the place that was given back last is taken first.
pub proof fn free_places_are_taken_first(p: Pool, streams: Seq<V4L2Stream>, stream: V4L2Stream)
    ensures
        p.colored(streams).next >= p.next,
        p.colored(streams).next > p.next ==> p.colored(streams).free.len() == 0,
        !p.colors.contains_key(stream) && p.free.len() > 0 ==> p.colored(
            seq![stream],
        ).colors[stream] == p.free.last(),
        !p.colors.contains_key(stream) && p.free.len() == 0 ==> p.colored(
            seq![stream],
        ).colors[stream] == p.next,
    decreases streams.len(),
{
    assert(seq![stream].drop_last() =~= Seq::empty());
    assert(p.colored(Seq::empty()) == p);
    if streams.len() > 0 {
        free_places_are_taken_first(p, streams.drop_last(), stream);
    }
}

/// The usages at a tick add up: those of two lists of streams to the sum of both, that of one
/// stream to what was recorded of it, and to nothing where it was not there.
pub proof fn recorded_usages_add_up(
    snapshot: Snapshot,
    a: Seq<V4L2Stream>,
    b: Seq<V4L2Stream>,
    stream: V4L2Stream,
)
    ensures
        cumulative(snapshot, a + b) == cumulative(snapshot, a) + cumulative(snapshot, b),
        snapshot.per_stream@.contains_key(stream) ==> cumulative(snapshot, seq![stream])
            == snapshot.per_stream@[stream],
        !snapshot.per_stream@.contains_key(stream) ==> cumulative(snapshot, seq![stream]) == 0,
        cumulative(snapshot, Seq::empty()) == 0,
    decreases b.len(),
{
    assert(seq![stream].drop_last() =~= Seq::empty());
    assert(cumulative(snapshot, Seq::empty()) == 0);
    if b.len() == 0 {
        assert(a + b =~= a);
    } else {
        recorded_usages_add_up(snapshot, a, b.drop_last(), stream);
        assert((a + b).drop_last() =~= a + b.drop_last());
    }
}

/// One more snapshot: the points so far stay, the line goes on to the new tick at the sum that it
/// had, and there it goes to the new sum. Where the sum is the same, or the line starts, one point
/// does.
pub proof fn lines_go_on_to_the_new_tick(
    snapshots: Seq<Snapshot>,
    snapshot: Snapshot,
    streams: Seq<V4L2Stream>,
)
    ensures
        ({
            let before = step_points(snapshots, streams);
            let after = step_points(snapshots.push(snapshot), streams);
            let sum = cumulative(snapshot, streams) as u128;
            let added = after.skip(before.len() as int);
            &&& after.len() >= before.len()
            &&& after.take(before.len() as int) == before
            &&& added.len() > 0 && added.last() == (snapshot.tick, sum)
            &&& before.len() == 0 || before.last().1 == sum ==> added.len() == 1
            &&& before.len() > 0 && before.last().1 != sum ==> added.len() == 2 && added[0] == (
                snapshot.tick,
                before.last().1,
            )
        }),
        step_points(Seq::empty(), streams).len() == 0,
{
    assert(snapshots.push(snapshot).drop_last() =~= snapshots);
    let before = step_points(snapshots, streams);
    let after = step_points(snapshots.push(snapshot), streams);
    assert(after.take(before.len() as int) =~= before);
}

/// Every snapshot has a point: at its tick, the line stands at the sum of the usages recorded then.
pub proof fn every_tick_has_its_point(snapshots: Seq<Snapshot>, streams: Seq<V4L2Stream>, i: int)
    requires
        0 <= i < snapshots.len(),
    ensures
        step_points(snapshots, streams).contains(
            (snapshots[i].tick, cumulative(snapshots[i], streams) as u128),
        ),
    decreases snapshots.len(),
{
    let rest = snapshots.drop_last();
    let points = step_points(snapshots, streams);
    let before = step_points(rest, streams);
    let p = (snapshots[i].tick, cumulative(snapshots[i], streams) as u128);
    if i == snapshots.len() - 1 {
        assert(points[points.len() - 1] == p);
    } else {
        every_tick_has_its_point(rest, streams, i);
        assert(rest[i] == snapshots[i]);
        let k = choose|k: int| 0 <= k < before.len() && before[k] == p;
        assert(points[k] == p);
    }
}

/// A chart has one line for each stream that was there at some tick, and none for any other.
pub proof fn every_visible_stream_has_a_line(
    lines: Seq<ChartLine>,
    snapshots: Seq<Snapshot>,
    colors: Map<V4L2Stream, usize>,
    stream: V4L2Stream,
)
    requires
        is_chart(lines, snapshots, colors),
    ensures
        (exists|i: int| 0 <= i < lines.len() && (#[trigger] lines[i]).stream == stream) <==> (
        exists|j: int|
            0 <= j < snapshots.len() && (#[trigger] snapshots[j]).per_stream@.contains_key(stream)),
{
    let streams = line_streams(lines);
    assert(streams.contains(stream) <==> visible(snapshots, stream));
    if streams.contains(stream) {
        let i = choose|i: int| 0 <= i < streams.len() && streams[i] == stream;
        assert(lines[i].stream == stream);
    }
    if exists|i: int| 0 <= i < lines.len() && (#[trigger] lines[i]).stream == stream {
        let i = choose|i: int| 0 <= i < lines.len() && (#[trigger] lines[i]).stream == stream;
        assert(streams[i] == stream);
    }
}

/// The lines of a chart stand in the order of their streams, and each one has the color of its
/// stream's place.
pub proof fn lines_stand_in_order(
    lines: Seq<ChartLine>,
    snapshots: Seq<Snapshot>,
    colors: Map<V4L2Stream, usize>,
    i: int,
    j: int,
)
    requires
        is_chart(lines, snapshots, colors),
        0 <= i < j < lines.len(),
    ensures
        ({
            let a = lines[i].stream;
            let b = lines[j].stream;
            a.pid < b.pid || (a.pid == b.pid && a.fd < b.fd)
        }),
        colors.contains_key(lines[i].stream) ==> lines[i].color == color_at(
            colors[lines[i].stream] as int,
        ),
{
    let streams = line_streams(lines);
    assert(streams[i].before(streams[j]));
}

/// The lowest line shows the usage of its own stream, and each line above it adds the usage of its
/// own stream to that of the line below: at every tick they are that far apart.
pub proof fn lines_are_one_usage_apart(snapshot: Snapshot, lines: Seq<ChartLine>, i: int)
    requires
        0 <= i < lines.len(),
    ensures
        cumulative(snapshot, line_streams(lines).take(i + 1)) == cumulative(
            snapshot,
            line_streams(lines).take(i),
        ) + if snapshot.per_stream@.contains_key(lines[i].stream) {
            snapshot.per_stream@[lines[i].stream] as nat
        } else {
            0
        },
        cumulative(snapshot, line_streams(lines).take(0)) == 0,
{
    let streams = line_streams(lines);
    assert(streams.take(i + 1).drop_last() =~= streams.take(i));
    assert(streams.take(0) =~= Seq::empty());
}

/// There is a point for each snapshot, and one more at most for each but the first.
proof fn lemma_point_count(snapshots: Seq<Snapshot>, streams: Seq<V4L2Stream>)
    ensures
        snapshots.len() <= step_points(snapshots, streams).len(),
        snapshots.len() > 0 ==> step_points(snapshots, streams).len() < 2 * snapshots.len(),
    decreases snapshots.len(),
{
    if snapshots.len() > 0 {
        lemma_point_count(snapshots.drop_last(), streams);
    }
}

/// The line of a stream has, at every tick, a point at the sum of the usages of the streams up to
/// it, and from point to point it goes in steps.
pub proof fn lines_have_a_point_at_every_tick(
    lines: Seq<ChartLine>,
    snapshots: Seq<Snapshot>,
    colors: Map<V4L2Stream, usize>,
    i: int,
    j: int,
)
    requires
        is_chart(lines, snapshots, colors),
        0 <= i < lines.len(),
        0 <= j < snapshots.len(),
    ensures
        lines[i].points@.contains(
            (
                snapshots[j].tick,
                cumulative(snapshots[j], line_streams(lines).take(i + 1)) as u128,
            ),
        ),
        snapshots.len() <= lines[i].points.len() < 2 * snapshots.len(),
        forall|k: int|
            0 <= k < lines[i].points.len() - 1 ==> (#[trigger] lines[i].points@[k]).0
                == lines[i].points@[k + 1].0 || lines[i].points@[k].1 == lines[i].points@[k + 1].1,
{
    let streams = line_streams(lines).take(i + 1);
    lemma_point_count(snapshots, streams);
    assert forall|k: int| 0 <= k < lines[i].points.len() - 1 implies (
    #[trigger] lines[i].points@[k]).0 == lines[i].points@[k + 1].0 || lines[i].points@[k].1
        == lines[i].points@[k + 1].1 by {
        points_are_steps(snapshots, streams, k);
    }
    every_tick_has_its_point(snapshots, line_streams(lines).take(i + 1), j);
    assert(lines[i].points@ == step_points(snapshots, line_streams(lines).take(i + 1)));
}

/// A recording adds one snapshot behind those before it, which stay, but for the oldest if there
/// are as many as may be kept.
pub proof fn recordings_keep_the_latest(
    before: UsageHistoryRenderer,
    after: UsageHistoryRenderer,
    infos: StreamMap<StreamInfo>,
    i: int,
)
    requires
        before.wf(),
        before.max_points > 0,
        recorded(before, after, infos),
    ensures
        ({
            let old_len = before.snapshots@.len();
            let len = after.snapshots@.len();
            &&& len == if old_len < before.max_points {
                old_len + 1
            } else {
                old_len
            }
            &&& 0 <= i < len - 1 ==> after.snapshots@[i] == before.snapshots@[i + old_len + 1 - len]
        }),
{
    let rest = after.snapshots@.drop_last();
    assert(rest == before.remaining());
    assert(0 <= i < rest.len() ==> rest[i] == after.snapshots@[i]);
}

/// The last snapshot of a recording has the current usage of every stream, nothing where it is not
/// known, and no other stream.
pub proof fn recordings_have_the_current_usage(
    before: UsageHistoryRenderer,
    after: UsageHistoryRenderer,
    infos: StreamMap<StreamInfo>,
    stream: V4L2Stream,
)
    requires
        recorded(before, after, infos),
    ensures
        after.tick == before.tick + 1,
        after.snapshots@.last().tick == before.tick,
        ({
            let usages = after.snapshots@.last().per_stream@;
            &&& usages.contains_key(stream) <==> infos@.contains_key(stream)
            &&& infos@.contains_key(stream) ==> usages[stream]
                == match infos@[stream].usage.current_usage {
                Some(p) => p,
                None => 0,
            }
        }),
{
}

/// The window is as many ticks wide as snapshots are kept, but not without width, and ends at the
/// last tick.
pub proof fn windows_have_a_fixed_width(h: UsageHistoryRenderer)
    requires
        h.has_window(),
        h.snapshots@.len() > 0,
    ensures
        h.max_points > 0 ==> h.x_max - h.x_min == h.max_points,
        h.max_points > 0 ==> h.x_max == h.snapshots@.last().tick,
        h.max_points == 0 ==> h.x_max - h.x_min == 1 && h.x_min == h.snapshots@.last().tick,
{
}

/// A recording draws the chart anew: the window ends at the new tick, the streams in the snapshots
/// have a line each, the current streams and those in a snapshot before have a color, and no stream
/// changes its own.
pub proof fn recordings_draw_anew(
    before: UsageHistoryRenderer,
    after: UsageHistoryRenderer,
    infos: StreamMap<StreamInfo>,
    stream: V4L2Stream,
)
    requires
        before.wf(),
        before.pid_colors.wf(),
        infos.wf(),
        recorded(before, after, infos),
    ensures
        after.max_points > 0 ==> after.x_max == before.tick && after.x_min == before.tick
            - after.max_points,
        line_streams(after.chart_data@).contains(stream) <==> visible(after.snapshots@, stream),
        after.pid_colors@.contains_key(stream) <==> visible(before.snapshots@, stream)
            || infos@.contains_key(stream),
        after.pid_colors@.contains_key(stream) && before.pid_colors@.contains_key(stream)
            ==> after.pid_colors@[stream] == before.pid_colors@[stream],
        after.pool().wf(),
{
    windows_have_a_fixed_width(after);
    visible_and_current_streams_are_colored(before, infos, stream);
    pool_stays_in_order(before, infos);
    assert(after.pool().colors.contains_key(stream) <==> after.pid_colors@.contains_key(stream));
}

/// A place that is given back is the first to be taken again: it comes behind those that were free
/// before, and the stream that gave it back has none.
pub proof fn places_given_back_come_last(p: Pool, gone: Seq<V4L2Stream>, stream: V4L2Stream)
    ensures
        ({
            let before = p.recycled(gone);
            let after = p.recycled(gone.push(stream));
            &&& after.free.len() == before.free.len() + 1
            &&& after.free.last() == before.colors[stream]
            &&& after.free.drop_last() == before.free
            &&& !after.colors.contains_key(stream)
            &&& after.next == before.next
        }),
{
    assert(gone.push(stream).drop_last() =~= gone);
    assert(p.recycled(gone.push(stream)).free.drop_last() =~= p.recycled(gone).free);
}

/// Every line is drawn, with all of its points, under its process and its descriptor, and the lines
/// come from the top one down.
pub proof fn every_line_is_drawn(chart: ChartView, h: UsageHistoryRenderer, i: int)
    requires
        shows_chart(chart, h),
        0 <= i < h.chart_data.len(),
    ensures
        chart.datasets.len() == h.chart_data.len(),
        chart.x_min == h.x_min,
        chart.x_max == h.x_max,
        ({
            let line = h.chart_data@[i];
            let drawn = chart.datasets@[h.chart_data.len() - 1 - i];
            &&& drawn.name@ == decimal(line.stream.pid as nat) + " "@ + decimal(
                line.stream.fd as nat,
            )
            &&& drawn.color == line.color
            &&& drawn.points@ == line.points@
        }),
{
    let drawn = chart.datasets@[h.chart_data.len() - 1 - i];
    assert(drawn.points@ == h.chart_data@[i].points@);
}

} // verus!
