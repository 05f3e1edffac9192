//! The bars that show the usage of the busiest streams.

use vstd::prelude::*;

use crate::codec::{
    current_or_zero, level_of, total_of, total_usage_of, usage_level, usage_or_zero, StreamInfo,
    UsageLevel,
};
use crate::stream::{ascending, StreamMap, V4L2Stream};
use crate::text::{
    align_right, append_chars, decimal, decimal_chars, from_chars, right_aligned, to_chars,
};

verus! {

/// How many bars there are.
pub const NUM_BARS: usize = 12;

/// How many bars stand side by side.
pub const BAR_COLS: usize = 2;

/// How many bars stand one below the other.
pub const BAR_ROWS: usize = NUM_BARS / BAR_COLS;

/// The streams whose usage is known, with it, in the order in which they are listed.
pub open spec fn measured(infos: Map<V4L2Stream, StreamInfo>, streams: Seq<V4L2Stream>) -> Seq<
    (V4L2Stream, u8),
>
    decreases streams.len(),
{
    if streams.len() == 0 {
        Seq::empty()
    } else {
        let before = measured(infos, streams.drop_last());
        match infos[streams.last()].usage.current_usage {
            Some(p) => before.push((streams.last(), p)),
            None => before,
        }
    }
}

/// Puts an entry into a ranking: in front of those with a lower usage at the end of the list.
pub open spec fn rank_inserted(ranking: Seq<(V4L2Stream, u8)>, entry: (V4L2Stream, u8)) -> Seq<
    (V4L2Stream, u8),
>
    decreases ranking.len(),
{
    if ranking.len() == 0 || ranking.last().1 >= entry.1 {
        ranking.push(entry)
    } else {
        rank_inserted(ranking.drop_last(), entry).push(ranking.last())
    }
}

/// The entries by descending usage; entries with the same usage keep their order.
pub open spec fn ranked(entries: Seq<(V4L2Stream, u8)>) -> Seq<(V4L2Stream, u8)>
    decreases entries.len(),
{
    if entries.len() == 0 {
        Seq::empty()
    } else {
        rank_inserted(ranked(entries.drop_last()), entries.last())
    }
}

/// The first entries of a ranking, one for each bar.
pub open spec fn top(ranking: Seq<(V4L2Stream, u8)>) -> Seq<(V4L2Stream, u8)> {
    if ranking.len() > NUM_BARS {
        ranking.take(NUM_BARS as int)
    } else {
        ranking
    }
}

/// The streams that are shown as bars, the busiest first.
pub open spec fn top_streams(infos: Map<V4L2Stream, StreamInfo>, streams: Seq<V4L2Stream>) -> Seq<
    V4L2Stream,
> {
    entry_streams(top(ranked(measured(infos, streams))))
}

/// The streams of a ranking.
pub open spec fn entry_streams(entries: Seq<(V4L2Stream, u8)>) -> Seq<V4L2Stream> {
    entries.map_values(|e: (V4L2Stream, u8)| e.0)
}

/// The slots without the streams that are not to be shown any more.
pub open spec fn kept(slots: Seq<Option<V4L2Stream>>, streams: Seq<V4L2Stream>) -> Seq<
    Option<V4L2Stream>,
> {
    slots.map_values(
        |slot: Option<V4L2Stream>|
            match slot {
                Some(s) => if streams.contains(s) {
                    slot
                } else {
                    None
                },
                None => None,
            },
    )
}

/// Where the first free slot is; behind the last slot if there is none.
pub open spec fn first_free(slots: Seq<Option<V4L2Stream>>) -> nat
    decreases slots.len(),
{
    if slots.len() == 0 || slots[0] is None {
        0
    } else {
        1 + first_free(slots.drop_first())
    }
}

/// The slots after those of the streams that have none yet each took the first free one, in turn.
pub open spec fn filled(slots: Seq<Option<V4L2Stream>>, streams: Seq<V4L2Stream>) -> Seq<
    Option<V4L2Stream>,
>
    decreases streams.len(),
{
    if streams.len() == 0 {
        slots
    } else {
        let before = filled(slots, streams.drop_last());
        let free = first_free(before) as int;
        if slots.contains(Some(streams.last())) || free >= before.len() {
            before
        } else {
            before.update(free, Some(streams.last()))
        }
    }
}

/// The slots once the given streams are the ones to be shown.
pub open spec fn reassigned(slots: Seq<Option<V4L2Stream>>, streams: Seq<V4L2Stream>) -> Seq<
    Option<V4L2Stream>,
> {
    filled(kept(slots, streams), streams)
}

/// No stream has two slots.
pub open spec fn distinct_slots(slots: Seq<Option<V4L2Stream>>) -> bool {
    forall|i: int, j: int|
        0 <= i < j < slots.len() && (#[trigger] slots[i]) is Some ==> slots[i]
            != #[trigger] slots[j]
}

/// What a slot shows.
pub open spec fn shown(infos: Map<V4L2Stream, StreamInfo>, slot: Option<V4L2Stream>) -> (
    Option<V4L2Stream>,
    u8,
) {
    match slot {
        Some(s) => (Some(s), usage_or_zero(infos[s])),
        None => (None, 0),
    }
}

/// A bar as it is drawn.
pub struct Bar {
    pub label: String,
    pub percent: u8,
    pub level: UsageLevel,
    pub bold: bool,
}

/// The content of a [`Bar`].
pub struct BarContent {
    pub label: Seq<char>,
    pub percent: u8,
    pub level: UsageLevel,
    pub bold: bool,
}

/// The content of a bar, if there is one.
pub open spec fn bar_view(bar: Option<Bar>) -> Option<BarContent> {
    match bar {
        Some(b) => Some(
            BarContent { label: b.label@, percent: b.percent, level: b.level, bold: b.bold },
        ),
        None => None,
    }
}

/// The label of a stream's bar: the process, the descriptor and the usage, in columns.
pub open spec fn bar_label(stream: V4L2Stream, percent: u8) -> Seq<char> {
    right_aligned(decimal(stream.pid as nat), 9) + "("@ + right_aligned(
        decimal(stream.fd as nat),
        6,
    ) + "): "@ + right_aligned(decimal(percent as nat), 3) + "%"@
}

/// The bar for what a slot shows: none for a free slot; that of the selected stream is bold.
pub open spec fn bar_of(
    assignment: (Option<V4L2Stream>, u8),
    selected: Option<V4L2Stream>,
) -> Option<BarContent> {
    match assignment.0 {
        Some(stream) => Some(
            BarContent {
                label: bar_label(stream, assignment.1),
                percent: assignment.1,
                level: level_of(assignment.1),
                bold: selected == Some(stream),
            },
        ),
        None => None,
    }
}

/// The label of the total.
pub open spec fn total_label(usage: u8) -> Seq<char> {
    "Total usage: "@ + right_aligned(decimal(usage as nat), 3) + "%"@
}

/// The bars as they are drawn.
pub struct BarsView {
    pub rows: Vec<Vec<Option<Bar>>>,
    pub total: String,
    pub total_usage: u8,
    pub total_level: UsageLevel,
}

/// Tracks the sticky assignment of streams to bar slots.
pub struct StreamBarRenderer {
    pub assignments: [(Option<V4L2Stream>, u8); 12],
    pub slots: [Option<V4L2Stream>; 12],
    pub usage: u8,
    pub selected: Option<V4L2Stream>,
}

/// The bars after they were assigned to the busiest of the given streams.
pub open spec fn bars_updated(
    before: StreamBarRenderer,
    after: StreamBarRenderer,
    infos: StreamMap<StreamInfo>,
    selected: Option<V4L2Stream>,
) -> bool {
    &&& after.selected == selected
    &&& after.usage == total_of(infos@, infos.keys())
    &&& after.slots@ == reassigned(before.slots@, top_streams(infos@, infos.keys()))
    &&& after.assignments@ == after.slots@.map_values(
        |slot: Option<V4L2Stream>| shown(infos@, slot),
    )
}

/// What is drawn is what the slots show, row by row, and the total.
pub open spec fn shows_bars(view: BarsView, bars: StreamBarRenderer) -> bool {
    &&& view.rows.len() == BAR_ROWS
    &&& forall|row: int| 0 <= row < BAR_ROWS ==> (#[trigger] view.rows@[row]).len() == BAR_COLS
    &&& forall|row: int, col: int|
        0 <= row < BAR_ROWS && 0 <= col < BAR_COLS ==> bar_view(#[trigger] view.rows@[row]@[col])
            == bar_of(bars.assignments@[row * BAR_COLS + col], bars.selected)
    &&& view.total@ == total_label(bars.usage)
    &&& view.total_usage == bars.usage
    &&& view.total_level == level_of(bars.usage)
}

impl StreamBarRenderer {
    /// No stream has two slots.
    pub open spec fn wf(self) -> bool {
        distinct_slots(self.slots@)
    }

    /// All slots are free, and nothing is shown or selected.
    pub open spec fn is_unused(self) -> bool {
        &&& self.assignments@ == Seq::new(NUM_BARS as nat, |i: int| (None::<V4L2Stream>, 0u8))
        &&& self.slots@ == Seq::new(NUM_BARS as nat, |i: int| None::<V4L2Stream>)
        &&& self.usage == 0
        &&& self.selected is None
    }

    /// All slots are free.
    pub fn new() -> (r: Self)
        ensures
            r.wf(),
            r.is_unused(),
    {
        let r = StreamBarRenderer {
            assignments: [(None, 0u8); 12],
            slots: [None; 12],
            usage: 0,
            selected: None,
        };
        assert(r.assignments@ =~= Seq::new(NUM_BARS as nat, |i: int| (None::<V4L2Stream>, 0u8)));
        assert(r.slots@ =~= Seq::new(NUM_BARS as nat, |i: int| None::<V4L2Stream>));
        r
    }

    /// Updates the assignments for the given streams: the busiest ones are shown, and a stream that
    /// was shown before keeps its slot.
    pub fn update(&mut self, infos: &StreamMap<StreamInfo>, selected: Option<V4L2Stream>)
        requires
            total_of(infos@, infos.keys()) <= u8::MAX,
        ensures
            bars_updated(*old(self), *final(self), *infos, selected),
            old(self).wf() ==> final(self).wf(),
            old(self).wf() ==> forall|s: V4L2Stream| #[trigger]
                final(self).slots@.contains(Some(s)) <==> top_streams(
                    infos@,
                    infos.keys(),
                ).contains(s),
            (forall|s: V4L2Stream| #[trigger]
                infos@.contains_key(s) ==> infos@[s].usage.wf()) ==> forall|i: int|
                0 <= i < NUM_BARS ==> (#[trigger] final(self).assignments@[i]).1 <= 100,
    {
        self.selected = selected;
        self.usage = match total_usage_of(infos) {
            Some(n) => n,
            None => 0,
        };
        let mut ranking: Vec<(V4L2Stream, u8)> = rank(infos);
        if ranking.len() > NUM_BARS {
            ranking.truncate(NUM_BARS);
        }
        let ghost streams = top_streams(infos@, infos.keys());
        let ghost known = kept(self.slots@, streams);
        proof {
            use_type_invariant(infos);
            infos.lemma_keys();
            top_streams_are_known(infos@, infos.keys());
        }
        assert(entry_streams(ranking@) =~= streams);

        // Evict the streams that fell out of the top.
        let mut i: usize = 0;
        while i < NUM_BARS
            invariant
                i <= NUM_BARS,
                entry_streams(ranking@) == streams,
                known == kept(old(self).slots@, streams),
                forall|j: int| 0 <= j < i ==> #[trigger] self.slots@[j] == known[j],
                forall|j: int|
                    i <= j < NUM_BARS ==> #[trigger] self.slots@[j] == old(self).slots@[j],
                self.selected == selected,
                self.usage == total_of(infos@, infos.keys()),
            decreases NUM_BARS - i,
        {
            if let Some(stream) = self.slots[i] {
                if !is_ranked(&ranking, stream) {
                    self.slots[i] = None;
                }
            }
            i += 1;
        }
        assert(self.slots@ =~= known);

        // Assign the new streams to free slots.
        let assigned: [Option<V4L2Stream>; 12] = self.slots;
        let mut k: usize = 0;
        assert(streams.take(0) =~= Seq::empty());
        while k < ranking.len()
            invariant
                k <= ranking.len(),
                entry_streams(ranking@) == streams,
                assigned@ == known,
                self.slots@ == filled(known, streams.take(k as int)),
                self.selected == selected,
                self.usage == total_of(infos@, infos.keys()),
            decreases ranking.len() - k,
        {
            let stream: V4L2Stream = ranking[k].0;
            assert(streams.take(k + 1).drop_last() =~= streams.take(k as int));
            assert(streams.take(k + 1).last() == stream);
            if !has_slot(&assigned, stream) {
                let free: usize = free_slot(&self.slots);
                if free < NUM_BARS {
                    self.slots[free] = Some(stream);
                }
            }
            k += 1;
        }
        assert(streams.take(streams.len() as int) =~= streams);
        proof {
            if old(self).wf() {
                assert forall|s: V4L2Stream| #[trigger]
                    self.slots@.contains(Some(s)) <==> streams.contains(s) by {
                    reassigned_shows_exactly(old(self).slots@, streams, s);
                }
                lemma_kept_distinct(old(self).slots@, streams);
                lemma_filled_distinct(known, streams);
            }
            lemma_filled(known, streams);
            assert forall|j: int| 0 <= j < NUM_BARS && (#[trigger] self.slots@[j]) is Some implies
                infos@.contains_key(self.slots@[j]->0) by {
                if known[j] is Some {
                    assert(self.slots@[j] == known[j]);
                }
                assert(streams.contains(self.slots@[j]->0));
                assert(infos.keys().contains(self.slots@[j]->0));
            }
        }

        // Note what each slot shows.
        let mut m: usize = 0;
        while m < NUM_BARS
            invariant
                m <= NUM_BARS,
                self.slots@ == reassigned(old(self).slots@, streams),
                old(self).wf() ==> self.wf() && forall|s: V4L2Stream| #[trigger]
                    self.slots@.contains(Some(s)) <==> streams.contains(s),
                forall|j: int|
                    0 <= j < m ==> #[trigger] self.assignments@[j] == shown(infos@, self.slots@[j]),
                forall|j: int|
                    0 <= j < NUM_BARS && (#[trigger] self.slots@[j]) is Some ==> infos@.contains_key(
                        self.slots@[j]->0,
                    ),
                self.selected == selected,
                self.usage == total_of(infos@, infos.keys()),
            decreases NUM_BARS - m,
        {
            self.assignments[m] = match self.slots[m] {
                Some(stream) => match infos.get(&stream) {
                    Some(info) => (Some(stream), current_or_zero(info)),
                    None => (None, 0),
                },
                None => (None, 0),
            };
            m += 1;
        }
        assert(self.assignments@ =~= self.slots@.map_values(
            |slot: Option<V4L2Stream>| shown(infos@, slot),
        ));
    }

    /// The usages can be drawn, each as the filled part of a gauge.
    pub open spec fn drawable(self) -> bool {
        &&& self.usage <= 100
        &&& forall|i: int| 0 <= i < NUM_BARS ==> (#[trigger] self.assignments@[i]).1 <= 100
    }

    /// What is drawn: the bars by row and column, and below them the total.
    pub fn render(&self) -> (r: BarsView)
        requires
            self.drawable(),
        ensures
            shows_bars(r, *self),
    {
        let mut rows: Vec<Vec<Option<Bar>>> = Vec::new();
        let mut row: usize = 0;
        while row < BAR_ROWS
            invariant
                row <= BAR_ROWS,
                rows.len() == row,
                forall|i: int| 0 <= i < row ==> (#[trigger] rows@[i]).len() == BAR_COLS,
                forall|i: int, col: int|
                    0 <= i < row && 0 <= col < BAR_COLS ==> bar_view(#[trigger] rows@[i]@[col])
                        == bar_of(self.assignments@[i * BAR_COLS + col], self.selected),
            decreases BAR_ROWS - row,
        {
            let mut bars: Vec<Option<Bar>> = Vec::new();
            let mut col: usize = 0;
            while col < BAR_COLS
                invariant
                    row < BAR_ROWS,
                    col <= BAR_COLS,
                    bars.len() == col,
                    forall|j: int|
                        0 <= j < col ==> bar_view(#[trigger] bars@[j]) == bar_of(
                            self.assignments@[row * BAR_COLS + j],
                            self.selected,
                        ),
                decreases BAR_COLS - col,
            {
                let (stream, percent) = self.assignments[row * BAR_COLS + col];
                let bar: Option<Bar> = match stream {
                    Some(stream) => Some(self.bar(stream, percent)),
                    None => None,
                };
                bars.push(bar);
                col += 1;
            }
            rows.push(bars);
            row += 1;
        }
        let mut total: Vec<char> = to_chars("Total usage: ");
        append_chars(&mut total, &align_right(&decimal_chars(self.usage as u64), 3));
        append_chars(&mut total, &to_chars("%"));
        BarsView {
            rows,
            total: from_chars(&total),
            total_usage: self.usage,
            total_level: usage_level(self.usage),
        }
    }

    /// The bar of a stream.
    fn bar(&self, stream: V4L2Stream, percent: u8) -> (r: Bar)
        ensures
            bar_view(Some(r)) == bar_of((Some(stream), percent), self.selected),
    {
        let mut label: Vec<char> = align_right(&decimal_chars(stream.pid as u64), 9);
        append_chars(&mut label, &to_chars("("));
        append_chars(&mut label, &align_right(&decimal_chars(stream.fd as u64), 6));
        append_chars(&mut label, &to_chars("): "));
        append_chars(&mut label, &align_right(&decimal_chars(percent as u64), 3));
        append_chars(&mut label, &to_chars("%"));
        let bold: bool = match self.selected {
            Some(selected) => stream == selected,
            None => false,
        };
        Bar { label: from_chars(&label), percent, level: usage_level(percent), bold }
    }

    /// The total usage, at least 100.
    pub open spec fn total_or_whole(self) -> u8 {
        if self.usage > 100 {
            self.usage
        } else {
            100
        }
    }

    /// The total usage, at least 100.
    pub fn total_usage(&self) -> (r: u8)
        ensures
            r == self.total_or_whole(),
    {
        if self.usage > 100 {
            self.usage
        } else {
            100
        }
    }
}

/// The streams whose usage is known, with it, by descending usage.
fn rank(infos: &StreamMap<StreamInfo>) -> (r: Vec<(V4L2Stream, u8)>)
    ensures
        r@ == ranked(measured(infos@, infos.keys())),
{
    let mut r: Vec<(V4L2Stream, u8)> = Vec::new();
    let ghost keys = infos.keys();
    let mut i: usize = 0;
    while i < infos.len()
        invariant
            i <= keys.len(),
            keys == infos.keys(),
            r@ == ranked(measured(infos@, keys.take(i as int))),
        decreases keys.len() - i,
    {
        let ghost before = measured(infos@, keys.take(i as int));
        assert(keys.take(i + 1).drop_last() =~= keys.take(i as int));
        if let Some(p) = infos.value_at(i).usage.current_usage {
            let entry: (V4L2Stream, u8) = (infos.key_at(i), p);
            assert(before.push(entry).drop_last() =~= before);
            insert_ranked(&mut r, entry);
        }
        i += 1;
    }
    assert(keys.take(keys.len() as int) =~= keys);
    r
}

/// Puts an entry into a ranking.
fn insert_ranked(ranking: &mut Vec<(V4L2Stream, u8)>, entry: (V4L2Stream, u8))
    ensures
        final(ranking)@ == rank_inserted(old(ranking)@, entry),
{
    let ghost all = ranking@;
    let mut p: usize = ranking.len();
    assert(all.take(p as int) =~= all);
    assert(all.skip(p as int) =~= Seq::empty());
    assert(rank_inserted(all, entry) =~= rank_inserted(all.take(p as int), entry) + all.skip(
        p as int,
    ));
    while p > 0 && ranking[p - 1].1 < entry.1
        invariant
            p <= all.len(),
            ranking@ == all,
            rank_inserted(all, entry) == rank_inserted(all.take(p as int), entry) + all.skip(
                p as int,
            ),
        decreases p,
    {
        assert(all.take(p as int).drop_last() =~= all.take(p - 1));
        assert(rank_inserted(all.take(p - 1), entry).push(all[p - 1]) + all.skip(p as int)
            =~= rank_inserted(all.take(p - 1), entry) + all.skip(p - 1));
        p -= 1;
    }
    ranking.insert(p, entry);
    assert(all.take(p as int).push(entry) + all.skip(p as int) =~= all.insert(p as int, entry));
}

/// Whether a stream is in a ranking.
fn is_ranked(ranking: &Vec<(V4L2Stream, u8)>, stream: V4L2Stream) -> (r: bool)
    ensures
        r == entry_streams(ranking@).contains(stream),
{
    let ghost streams = entry_streams(ranking@);
    let mut i: usize = 0;
    while i < ranking.len()
        invariant
            i <= ranking.len(),
            streams == entry_streams(ranking@),
            forall|j: int| 0 <= j < i ==> #[trigger] streams[j] != stream,
        decreases ranking.len() - i,
    {
        if ranking[i].0 == stream {
            assert(streams[i as int] == stream);
            return true;
        }
        i += 1;
    }
    false
}

/// Whether a stream has a slot.
fn has_slot(slots: &[Option<V4L2Stream>; 12], stream: V4L2Stream) -> (r: bool)
    ensures
        r == slots@.contains(Some(stream)),
{
    let mut i: usize = 0;
    while i < NUM_BARS
        invariant
            i <= NUM_BARS,
            forall|j: int| 0 <= j < i ==> #[trigger] slots@[j] != Some(stream),
        decreases NUM_BARS - i,
    {
        if let Some(s) = slots[i] {
            if s == stream {
                assert(slots@[i as int] == Some(stream));
                return true;
            }
        }
        i += 1;
    }
    false
}

proof fn lemma_first_free(slots: Seq<Option<V4L2Stream>>, n: int)
    requires
        0 <= n <= slots.len(),
        forall|i: int| 0 <= i < n ==> (#[trigger] slots[i]) is Some,
        n < slots.len() ==> slots[n] is None,
    ensures
        first_free(slots) == n,
    decreases slots.len(),
{
    if n > 0 {
        let rest = slots.drop_first();
        assert(slots[0] is Some);
        assert(forall|i: int| 0 <= i < n - 1 ==> #[trigger] rest[i] == slots[i + 1]);
        lemma_first_free(rest, n - 1);
    }
}

/// Where the first free slot is; behind the last slot if there is none.
fn free_slot(slots: &[Option<V4L2Stream>; 12]) -> (r: usize)
    ensures
        r == first_free(slots@),
        r <= NUM_BARS,
{
    let mut i: usize = 0;
    while i < NUM_BARS && slots[i].is_some()
        invariant
            i <= NUM_BARS,
            forall|j: int| 0 <= j < i ==> (#[trigger] slots@[j]) is Some,
        decreases NUM_BARS - i,
    {
        i += 1;
    }
    proof {
        lemma_first_free(slots@, i as int);
    }
    i
}

/// One entry comes before another in a ranking: its usage is higher, or, at the same usage, its
/// stream comes first.
pub open spec fn outranks(a: (V4L2Stream, u8), b: (V4L2Stream, u8)) -> bool {
    a.1 > b.1 || (a.1 == b.1 && a.0.before(b.0))
}

/// A list in the order of a ranking.
pub open spec fn is_ranking(entries: Seq<(V4L2Stream, u8)>) -> bool {
    forall|i: int, j: int|
        0 <= i < j < entries.len() ==> outranks(#[trigger] entries[i], #[trigger] entries[j])
}

/// Where an entry goes in a ranking.
spec fn rank_place(ranking: Seq<(V4L2Stream, u8)>, entry: (V4L2Stream, u8)) -> int
    decreases ranking.len(),
{
    if ranking.len() == 0 || ranking.last().1 >= entry.1 {
        ranking.len() as int
    } else {
        rank_place(ranking.drop_last(), entry)
    }
}

proof fn lemma_rank_place(ranking: Seq<(V4L2Stream, u8)>, entry: (V4L2Stream, u8))
    ensures
        0 <= rank_place(ranking, entry) <= ranking.len(),
        rank_inserted(ranking, entry) == ranking.insert(rank_place(ranking, entry), entry),
        forall|i: int|
            rank_place(ranking, entry) <= i < ranking.len() ==> (#[trigger] ranking[i]).1 < entry.1,
        rank_place(ranking, entry) > 0 ==> ranking[rank_place(ranking, entry) - 1].1 >= entry.1,
    decreases ranking.len(),
{
    let p = rank_place(ranking, entry);
    if ranking.len() == 0 || ranking.last().1 >= entry.1 {
        assert(ranking.push(entry) =~= ranking.insert(p, entry));
    } else {
        let rest = ranking.drop_last();
        lemma_rank_place(rest, entry);
        assert(forall|i: int| 0 <= i < rest.len() ==> #[trigger] rest[i] == ranking[i]);
        assert(rest.insert(p, entry).push(ranking.last()) =~= ranking.insert(p, entry));
        assert forall|i: int| p <= i < ranking.len() implies (#[trigger] ranking[i]).1
            < entry.1 by {
            if i < rest.len() {
                assert(rest[i].1 < entry.1);
            }
        }
    }
}

/// The ranking of streams that are listed in ascending order: the same entries, in the order of a
/// ranking.
pub proof fn ranked_is_ranking(entries: Seq<(V4L2Stream, u8)>)
    requires
        ascending(entry_streams(entries)),
    ensures
        is_ranking(ranked(entries)),
        ranked(entries).len() == entries.len(),
        forall|e: (V4L2Stream, u8)| #[trigger] ranked(entries).contains(e) <==> entries.contains(e),
    decreases entries.len(),
{
    if entries.len() > 0 {
        let e = entries.last();
        let rest = entries.drop_last();
        let keys = entry_streams(entries);
        assert(entry_streams(rest) =~= keys.drop_last());
        ranked_is_ranking(rest);
        let r0 = ranked(rest);
        let r1 = ranked(entries);
        lemma_rank_place(r0, e);
        let p = rank_place(r0, e);
        assert forall|i: int| 0 <= i < r0.len() implies (#[trigger] r0[i]).0.before(e.0) by {
            assert(r0.contains(r0[i]));
            assert(rest.contains(r0[i]));
            let j = choose|j: int| 0 <= j < rest.len() && rest[j] == r0[i];
            assert(keys[j].before(keys[keys.len() - 1]));
        }
        assert forall|i: int, j: int| 0 <= i < j < r1.len() implies outranks(
            #[trigger] r1[i],
            #[trigger] r1[j],
        ) by {
            let i0 = if i < p { i } else { i - 1 };
            let j0 = if j < p { j } else { j - 1 };
            if i != p {
                assert(r1[i] == r0[i0]);
            }
            if j != p {
                assert(r1[j] == r0[j0]);
            }
            if j == p && i < p - 1 {
                assert(outranks(r0[i], r0[p - 1]));
            }
        }
        assert forall|x: (V4L2Stream, u8)| #[trigger] r1.contains(x) implies entries.contains(x) by {
            let i = choose|i: int| 0 <= i < r1.len() && r1[i] == x;
            if i == p {
                assert(entries[entries.len() - 1] == x);
            } else {
                let i0 = if i < p { i } else { i - 1 };
                assert(r0[i0] == x);
                assert(r0.contains(x));
                let j = choose|j: int| 0 <= j < rest.len() && rest[j] == x;
                assert(entries[j] == x);
            }
        }
        assert forall|x: (V4L2Stream, u8)| entries.contains(x) implies #[trigger] r1.contains(x) by {
            let i = choose|i: int| 0 <= i < entries.len() && entries[i] == x;
            if i == entries.len() - 1 {
                assert(r1[p] == x);
            } else {
                assert(rest[i] == x);
                assert(rest.contains(x));
                assert(r0.contains(x));
                let j = choose|j: int| 0 <= j < r0.len() && r0[j] == x;
                let j1 = if j < p { j } else { j + 1 };
                assert(r1[j1] == x);
            }
        }
    }
}

/// The streams whose usage is known are listed once each, in ascending order.
proof fn lemma_measured(infos: Map<V4L2Stream, StreamInfo>, streams: Seq<V4L2Stream>)
    requires
        ascending(streams),
    ensures
        ascending(entry_streams(measured(infos, streams))),
        forall|i: int|
            0 <= i < measured(infos, streams).len() ==> streams.contains(
                (#[trigger] measured(infos, streams)[i]).0,
            ) && infos[measured(infos, streams)[i].0].usage.current_usage == Some(
                measured(infos, streams)[i].1,
            ),
        forall|s: V4L2Stream|
            streams.contains(s) && infos[s].usage.current_usage is Some ==> measured(
                infos,
                streams,
            ).contains((s, infos[s].usage.current_usage->0)),
    decreases streams.len(),
{
    if streams.len() > 0 {
        let rest = streams.drop_last();
        let last = streams.last();
        let m0 = measured(infos, rest);
        let m1 = measured(infos, streams);
        lemma_measured(infos, rest);
        let k0 = entry_streams(m0);
        let k1 = entry_streams(m1);
        assert forall|i: int| 0 <= i < m0.len() implies (#[trigger] m0[i]).0.before(last)
            && streams.contains(m0[i].0) by {
            assert(rest.contains(m0[i].0));
            let j = choose|j: int| 0 <= j < rest.len() && rest[j] == m0[i].0;
            assert(streams[j] == m0[i].0);
            assert(streams[j].before(streams[streams.len() - 1]));
        }
        assert forall|i: int, j: int| 0 <= i < j < k1.len() implies (#[trigger] k1[i]).before(
            #[trigger] k1[j],
        ) by {
            if j < k0.len() {
                assert(k0[i].before(k0[j]));
            } else {
                assert(m0[i].0.before(last));
            }
        }
        assert forall|i: int| 0 <= i < m1.len() implies streams.contains((#[trigger] m1[i]).0)
            && infos[m1[i].0].usage.current_usage == Some(m1[i].1) by {
            if i < m0.len() {
                assert(m1[i] == m0[i]);
            } else {
                assert(streams[streams.len() - 1] == last);
            }
        }
        assert forall|s: V4L2Stream|
            streams.contains(s) && infos[s].usage.current_usage is Some implies m1.contains(
            (s, infos[s].usage.current_usage->0),
        ) by {
            let e = (s, infos[s].usage.current_usage->0);
            let i = choose|i: int| 0 <= i < streams.len() && streams[i] == s;
            if i < rest.len() {
                assert(rest[i] == s);
                assert(rest.contains(s));
                assert(m0.contains(e));
                let j = choose|j: int| 0 <= j < m0.len() && m0[j] == e;
                assert(m1[j] == e);
            } else {
                assert(m1[m1.len() - 1] == e);
            }
        }
    }
}

/// The streams that are shown as bars are among those that are listed, none of them twice, and
/// there is a bar for each.
pub proof fn top_streams_are_known(infos: Map<V4L2Stream, StreamInfo>, streams: Seq<V4L2Stream>)
    requires
        ascending(streams),
    ensures
        top_streams(infos, streams).no_duplicates(),
        top_streams(infos, streams).len() <= NUM_BARS,
        forall|s: V4L2Stream| #[trigger]
            top_streams(infos, streams).contains(s) ==> streams.contains(s)
                && infos[s].usage.current_usage is Some,
{
    let entries = measured(infos, streams);
    let all = ranked(entries);
    let best = top(all);
    let t = top_streams(infos, streams);
    lemma_measured(infos, streams);
    ranked_is_ranking(entries);
    assert forall|i: int, j: int| 0 <= i < t.len() && 0 <= j < t.len() && i != j implies t[i]
        != t[j] by {
        let a = if i < j { i } else { j };
        let b = if i < j { j } else { i };
        assert(best[a] == all[a] && best[b] == all[b]);
        assert(outranks(all[a], all[b]));
        if all[a].0 == all[b].0 {
            assert(all.contains(all[a]));
            assert(all.contains(all[b]));
            let x = choose|x: int| 0 <= x < entries.len() && entries[x] == all[a];
            let y = choose|y: int| 0 <= y < entries.len() && entries[y] == all[b];
            assert(infos[entries[x].0].usage.current_usage == Some(entries[x].1));
            assert(infos[entries[y].0].usage.current_usage == Some(entries[y].1));
        }
    }
    assert forall|s: V4L2Stream| #[trigger] t.contains(s) implies streams.contains(s)
        && infos[s].usage.current_usage is Some by {
        let i = choose|i: int| 0 <= i < t.len() && t[i] == s;
        assert(best[i] == all[i]);
        assert(all.contains(all[i]));
        let x = choose|x: int| 0 <= x < entries.len() && entries[x] == all[i];
        assert(streams.contains(entries[x].0));
    }
}

/// The bars show the busiest streams: a stream that is not shown, though its usage is known, is
/// outranked by every stream that is.
pub proof fn bars_show_the_busiest(
    infos: Map<V4L2Stream, StreamInfo>,
    streams: Seq<V4L2Stream>,
    shown_stream: V4L2Stream,
    other: V4L2Stream,
)
    requires
        ascending(streams),
        top_streams(infos, streams).contains(shown_stream),
        streams.contains(other),
        infos[other].usage.current_usage is Some,
        !top_streams(infos, streams).contains(other),
    ensures
        infos[shown_stream].usage.current_usage is Some,
        outranks(
            (shown_stream, infos[shown_stream].usage.current_usage->0),
            (other, infos[other].usage.current_usage->0),
        ),
        top_streams(infos, streams).len() == NUM_BARS,
{
    let entries = measured(infos, streams);
    let all = ranked(entries);
    let best = top(all);
    let t = top_streams(infos, streams);
    lemma_measured(infos, streams);
    ranked_is_ranking(entries);
    top_streams_are_known(infos, streams);
    let i = choose|i: int| 0 <= i < t.len() && t[i] == shown_stream;
    let e = (other, infos[other].usage.current_usage->0);
    assert(entries.contains(e));
    assert(all.contains(e));
    let j = choose|j: int| 0 <= j < all.len() && all[j] == e;
    assert(j >= best.len()) by {
        if j < best.len() {
            assert(t[j] == other);
        }
    }
    assert(all[i].0 == shown_stream);
    assert(all.contains(all[i]));
    let x = choose|x: int| 0 <= x < entries.len() && entries[x] == all[i];
    assert(infos[entries[x].0].usage.current_usage == Some(entries[x].1));
    assert(outranks(all[i], all[j]));
}

/// Where the first free slot is, all slots before it are taken and it is not.
proof fn lemma_first_free_place(slots: Seq<Option<V4L2Stream>>)
    ensures
        first_free(slots) <= slots.len(),
        first_free(slots) < slots.len() ==> slots[first_free(slots) as int] is None,
        forall|i: int| 0 <= i < first_free(slots) ==> (#[trigger] slots[i]) is Some,
    decreases slots.len(),
{
    if slots.len() > 0 && slots[0] is Some {
        let rest = slots.drop_first();
        lemma_first_free_place(rest);
        assert forall|i: int| 0 <= i < first_free(slots) implies (#[trigger] slots[i]) is Some by {
            if i > 0 {
                assert(rest[i - 1] is Some);
            }
        }
    }
}

/// What filling the slots keeps and adds.
proof fn lemma_filled(slots: Seq<Option<V4L2Stream>>, streams: Seq<V4L2Stream>)
    ensures
        filled(slots, streams).len() == slots.len(),
        forall|i: int|
            0 <= i < slots.len() && (#[trigger] slots[i]) is Some ==> filled(slots, streams)[i]
                == slots[i],
        forall|i: int|
            0 <= i < slots.len() && (#[trigger] filled(slots, streams)[i]) is Some
                && slots[i] is None ==> streams.contains(filled(slots, streams)[i]->0)
                && !slots.contains(filled(slots, streams)[i]),
    decreases streams.len(),
{
    if streams.len() > 0 {
        let rest = streams.drop_last();
        let before = filled(slots, rest);
        lemma_filled(slots, rest);
        lemma_first_free_place(before);
        let after = filled(slots, streams);
        assert forall|i: int|
            0 <= i < slots.len() && (#[trigger] after[i]) is Some
                && slots[i] is None implies streams.contains(after[i]->0) && !slots.contains(
            after[i],
        ) by {
            if after[i] == before[i] {
                assert(rest.contains(before[i]->0));
                let j = choose|j: int| 0 <= j < rest.len() && rest[j] == before[i]->0;
                assert(streams[j] == before[i]->0);
            } else {
                assert(streams[streams.len() - 1] == after[i]->0);
            }
        }
    }
}

/// Filling the slots gives no stream a second one.
proof fn lemma_filled_distinct(slots: Seq<Option<V4L2Stream>>, streams: Seq<V4L2Stream>)
    requires
        distinct_slots(slots),
        streams.no_duplicates(),
    ensures
        distinct_slots(filled(slots, streams)),
    decreases streams.len(),
{
    if streams.len() > 0 {
        let rest = streams.drop_last();
        let last = streams.last();
        let before = filled(slots, rest);
        lemma_filled_distinct(slots, rest);
        lemma_filled(slots, rest);
        let after = filled(slots, streams);
        if after != before {
            let free = first_free(before) as int;
            lemma_first_free_place(before);
            assert forall|i: int| 0 <= i < before.len() implies #[trigger] before[i] != Some(
                last,
            ) by {
                if before[i] == Some(last) {
                    if slots[i] is Some {
                        assert(slots[i] == Some(last));
                        assert(slots.contains(Some(last)));
                    } else {
                        assert(rest.contains(last));
                        let j = choose|j: int| 0 <= j < rest.len() && rest[j] == last;
                        assert(streams[j] == streams[streams.len() - 1]);
                    }
                }
            }
            assert forall|i: int, j: int|
                0 <= i < j < after.len() && (#[trigger] after[i]) is Some implies after[i]
                != #[trigger] after[j] by {
                if i == free {
                    assert(after[j] == before[j]);
                } else if j == free {
                    assert(after[i] == before[i]);
                } else {
                    assert(after[i] == before[i] && after[j] == before[j]);
                }
            }
        }
    }
}

/// What is kept of the slots: no stream twice, and only streams that are to be shown.
proof fn lemma_kept_distinct(slots: Seq<Option<V4L2Stream>>, streams: Seq<V4L2Stream>)
    requires
        distinct_slots(slots),
    ensures
        distinct_slots(kept(slots, streams)),
{
    let k = kept(slots, streams);
    assert forall|i: int, j: int| 0 <= i < j < k.len() && (#[trigger] k[i]) is Some implies k[i]
        != #[trigger] k[j] by {
        assert(slots[i] is Some && k[i] == slots[i]);
        assert(k[j] is Some ==> k[j] == slots[j]);
        assert(slots[i] != slots[j]);
    }
}

/// If all slots are taken, by streams that are distinct and among those to be shown, there are no
/// more streams than slots only if each of them has a slot.
proof fn lemma_full_slots(slots: Seq<Option<V4L2Stream>>, streams: Seq<V4L2Stream>, s: V4L2Stream)
    requires
        distinct_slots(slots),
        streams.len() <= slots.len(),
        streams.contains(s),
        forall|i: int|
            0 <= i < slots.len() ==> (#[trigger] slots[i]) is Some && streams.contains(
                slots[i]->0,
            ),
    ensures
        slots.contains(Some(s)),
{
    if !slots.contains(Some(s)) {
        let taken = slots.map_values(|o: Option<V4L2Stream>| o->0);
        assert(taken.no_duplicates()) by {
            assert forall|i: int, j: int|
                0 <= i < taken.len() && 0 <= j < taken.len() && i != j implies taken[i]
                != taken[j] by {
                assert(slots[i] is Some && slots[j] is Some);
                if i < j {
                    assert(slots[i] != slots[j]);
                } else {
                    assert(slots[j] != slots[i]);
                }
            }
        }
        taken.unique_seq_to_set();
        let others = streams.to_set().remove(s);
        streams.lemma_cardinality_of_set();
        vstd::seq_lib::seq_to_set_is_finite(streams);
        assert(streams.to_set().contains(s));
        assert(taken.to_set().subset_of(others)) by {
            assert forall|x: V4L2Stream| taken.to_set().contains(x) implies others.contains(x) by {
                let i = choose|i: int| 0 <= i < taken.len() && taken[i] == x;
                assert(slots[i] is Some && slots[i]->0 == x);
                assert(streams.contains(x));
                if x == s {
                    assert(slots[i] == Some(s));
                }
            }
        }
        vstd::set_lib::lemma_len_subset(taken.to_set(), others);
        assert(false);
    }
}

/// Every stream that was handed out finds a slot, where the slots held none but streams to be
/// shown.
proof fn lemma_filled_complete(
    slots: Seq<Option<V4L2Stream>>,
    streams: Seq<V4L2Stream>,
    all: Seq<V4L2Stream>,
)
    requires
        distinct_slots(slots),
        streams.no_duplicates(),
        all.len() <= slots.len(),
        forall|s: V4L2Stream| #[trigger] streams.contains(s) ==> all.contains(s),
        forall|i: int|
            0 <= i < slots.len() && (#[trigger] slots[i]) is Some ==> all.contains(slots[i]->0),
    ensures
        forall|s: V4L2Stream|
            streams.contains(s) ==> #[trigger] filled(slots, streams).contains(Some(s)),
    decreases streams.len(),
{
    if streams.len() > 0 {
        let rest = streams.drop_last();
        let last = streams.last();
        let before = filled(slots, rest);
        let after = filled(slots, streams);
        assert forall|s: V4L2Stream| #[trigger] rest.contains(s) implies all.contains(s) by {
            let j = choose|j: int| 0 <= j < rest.len() && rest[j] == s;
            assert(streams[j] == s);
            assert(streams.contains(s));
        }
        lemma_filled_complete(slots, rest, all);
        lemma_filled(slots, rest);
        lemma_filled(slots, streams);
        lemma_filled_distinct(slots, rest);
        lemma_first_free_place(before);
        let free = first_free(before) as int;
        assert(streams[streams.len() - 1] == last);
        assert(streams.contains(last));
        assert(after.contains(Some(last))) by {
            if slots.contains(Some(last)) {
                let i = choose|i: int| 0 <= i < slots.len() && slots[i] == Some(last);
                assert(after[i] == Some(last));
            } else if free >= before.len() {
                assert forall|i: int| 0 <= i < before.len() implies (#[trigger] before[i]) is Some
                    && all.contains(before[i]->0) by {
                    if slots[i] is None {
                        assert(rest.contains(before[i]->0));
                    }
                }
                lemma_full_slots(before, all, last);
            } else {
                assert(after[free] == Some(last));
            }
        }
        assert forall|s: V4L2Stream| streams.contains(s) implies #[trigger] after.contains(
            Some(s),
        ) by {
            if s != last {
                let j = choose|j: int| 0 <= j < streams.len() && streams[j] == s;
                assert(rest[j] == s);
                assert(rest.contains(s));
                assert(before.contains(Some(s)));
                let i = choose|i: int| 0 <= i < before.len() && before[i] == Some(s);
                assert(after[i] == Some(s));
            }
        }
    }
}

/// The slots that a reassignment leaves hold the streams to be shown and no others, each of them
/// once.
pub proof fn reassigned_shows_exactly(
    slots: Seq<Option<V4L2Stream>>,
    streams: Seq<V4L2Stream>,
    stream: V4L2Stream,
)
    requires
        distinct_slots(slots),
        streams.no_duplicates(),
        streams.len() <= slots.len(),
    ensures
        reassigned(slots, streams).len() == slots.len(),
        distinct_slots(reassigned(slots, streams)),
        reassigned(slots, streams).contains(Some(stream)) <==> streams.contains(stream),
{
    let k = kept(slots, streams);
    let r = reassigned(slots, streams);
    lemma_kept_distinct(slots, streams);
    lemma_filled(k, streams);
    lemma_filled_distinct(k, streams);
    assert forall|i: int| 0 <= i < k.len() && (#[trigger] k[i]) is Some implies streams.contains(
        k[i]->0,
    ) by {
        assert(slots[i] == k[i]);
    }
    lemma_filled_complete(k, streams, streams);
    if r.contains(Some(stream)) {
        let i = choose|i: int| 0 <= i < r.len() && r[i] == Some(stream);
        if k[i] is Some {
            assert(r[i] == k[i]);
        }
    }
}

/// A stream that is still to be shown keeps its slot.
pub proof fn reassigned_is_sticky(
    slots: Seq<Option<V4L2Stream>>,
    streams: Seq<V4L2Stream>,
    i: int,
)
    requires
        0 <= i < slots.len(),
        slots[i] matches Some(s) && streams.contains(s),
    ensures
        reassigned(slots, streams)[i] == slots[i],
{
    let k = kept(slots, streams);
    assert(k[i] == slots[i]);
    lemma_filled(k, streams);
}

/// The spaces that fill a column in front of a number.
pub open spec fn fill(width: nat, number: nat) -> Seq<char> {
    Seq::new(
        if decimal(number).len() < width {
            (width - decimal(number).len()) as nat
        } else {
            0
        },
        |i: int| ' ',
    )
}

/// There is a bar for every stream and none for a free slot. It tells the process, the descriptor
/// and the usage in full, and it is bold exactly if the selected stream has both the same process
/// and the same descriptor.
pub proof fn bars_tell_of_their_stream(
    stream: V4L2Stream,
    percent: u8,
    selected: Option<V4L2Stream>,
)
    ensures
        bar_of((None, percent), selected) is None,
        bar_of((Some(stream), percent), selected) matches Some(bar) && {
            &&& bar.bold <==> selected is Some && selected->0.pid == stream.pid && selected->0.fd
                == stream.fd
            &&& bar.percent == percent
            &&& bar.level == UsageLevel::Low <==> percent <= 50
            &&& bar.level == UsageLevel::High <==> percent > 80
            &&& bar.label == fill(9, stream.pid as nat) + decimal(stream.pid as nat) + "("@ + fill(
                6,
                stream.fd as nat,
            ) + decimal(stream.fd as nat) + "): "@ + fill(3, percent as nat) + decimal(
                percent as nat,
            ) + "%"@
        },
        total_label(percent) == "Total usage: "@ + fill(3, percent as nat) + decimal(
            percent as nat,
        ) + "%"@,
{
    let pid = right_aligned(decimal(stream.pid as nat), 9);
    let fd = right_aligned(decimal(stream.fd as nat), 6);
    let usage = right_aligned(decimal(percent as nat), 3);
    assert(pid =~= fill(9, stream.pid as nat) + decimal(stream.pid as nat));
    assert(fd =~= fill(6, stream.fd as nat) + decimal(stream.fd as nat));
    assert(usage =~= fill(3, percent as nat) + decimal(percent as nat));
    assert(bar_label(stream, percent) =~= fill(9, stream.pid as nat) + decimal(stream.pid as nat)
        + "("@ + fill(6, stream.fd as nat) + decimal(stream.fd as nat) + "): "@ + fill(
        3,
        percent as nat,
    ) + decimal(percent as nat) + "%"@);
    assert(total_label(percent) =~= "Total usage: "@ + fill(3, percent as nat) + decimal(
        percent as nat,
    ) + "%"@);
}

/// What is drawn of a slot: the twelve slots stand two by two in six rows, a free slot shows
/// nothing, and the bar of any other slot tells of the stream and the usage that the slot shows. It
/// is bold exactly if the slot's own stream is the selected one.
pub proof fn slots_are_drawn_two_by_two(view: BarsView, bars: StreamBarRenderer, slot: int)
    requires
        shows_bars(view, bars),
        0 <= slot < 12,
    ensures
        view.rows.len() == 6,
        view.rows@[slot / 2].len() == 2,
        ({
            let drawn = view.rows@[slot / 2]@[slot % 2];
            let (stream, percent) = bars.assignments@[slot];
            &&& drawn is Some <==> stream is Some
            &&& drawn is Some ==> {
                &&& drawn->0.percent == percent
                &&& drawn->0.bold <==> bars.selected is Some && bars.selected->0.pid
                    == stream->0.pid && bars.selected->0.fd == stream->0.fd
                &&& drawn->0.level == UsageLevel::Low <==> percent <= 50
                &&& drawn->0.level == UsageLevel::High <==> percent > 80
                &&& drawn->0.label@ == fill(9, stream->0.pid as nat) + decimal(
                    stream->0.pid as nat,
                ) + "("@ + fill(6, stream->0.fd as nat) + decimal(stream->0.fd as nat) + "): "@
                    + fill(3, percent as nat) + decimal(percent as nat) + "%"@
            }
        }),
        view.total_usage == bars.usage,
        view.total@ == "Total usage: "@ + fill(3, bars.usage as nat) + decimal(bars.usage as nat)
            + "%"@,
        view.total_level == UsageLevel::Low <==> bars.usage <= 50,
        view.total_level == UsageLevel::High <==> bars.usage > 80,
{
    let (stream, percent) = bars.assignments@[slot];
    let row = slot / 2;
    let col = slot % 2;
    assert(view.rows@[row].len() == BAR_COLS);
    let drawn = view.rows@[row]@[col];
    assert(bar_view(drawn) == bar_of(bars.assignments@[row * BAR_COLS + col], bars.selected));
    assert(row * BAR_COLS + col == slot);
    match stream {
        Some(s) => {
            bars_tell_of_their_stream(s, percent, bars.selected);
        },
        None => {},
    }
    bars_tell_of_their_stream(V4L2Stream { pid: 0, fd: 0 }, bars.usage, bars.selected);
}

/// Each slot shows its own stream, with the current usage of that stream, and the total is that of
/// all streams.
pub proof fn slots_show_the_current_usage(
    before: StreamBarRenderer,
    after: StreamBarRenderer,
    infos: StreamMap<StreamInfo>,
    selected: Option<V4L2Stream>,
    slot: int,
)
    requires
        bars_updated(before, after, infos, selected),
        0 <= slot < 12,
    ensures
        after.selected == selected,
        after.usage == total_of(infos@, infos.keys()),
        after.assignments@[slot].0 == after.slots@[slot],
        after.slots@[slot] is None ==> after.assignments@[slot].1 == 0,
        after.slots@[slot] matches Some(s) ==> after.assignments@[slot].1
            == match infos@[s].usage.current_usage {
            Some(p) => p,
            None => 0,
        },
{
}

/// An update is sticky: a stream that is still among the busiest keeps its slot, every one of the
/// busiest has a slot, and no other stream has one.
pub proof fn updates_are_sticky(
    before: StreamBarRenderer,
    after: StreamBarRenderer,
    infos: StreamMap<StreamInfo>,
    selected: Option<V4L2Stream>,
    slot: int,
    stream: V4L2Stream,
)
    requires
        infos.wf(),
        before.wf(),
        bars_updated(before, after, infos, selected),
        0 <= slot < 12,
    ensures
        ({
            let busiest = top_streams(infos@, infos.keys());
            &&& before.slots@[slot] == Some(stream) && busiest.contains(stream)
                ==> after.slots@[slot] == Some(stream)
            &&& after.slots@.contains(Some(stream)) <==> busiest.contains(stream)
        }),
        after.wf(),
{
    let busiest = top_streams(infos@, infos.keys());
    infos.lemma_keys();
    top_streams_are_known(infos@, infos.keys());
    reassigned_shows_exactly(before.slots@, busiest, stream);
    if before.slots@[slot] == Some(stream) && busiest.contains(stream) {
        reassigned_is_sticky(before.slots@, busiest, slot);
    }
}

/// An update fills the slots from the first on: no slot stays free in front of a newcomer's, and of
/// two newcomers the busier one stands first.
pub proof fn updates_fill_from_the_first_slot_on(
    before: StreamBarRenderer,
    after: StreamBarRenderer,
    infos: StreamMap<StreamInfo>,
    selected: Option<V4L2Stream>,
    i: int,
    j: int,
    a: int,
    b: int,
)
    requires
        infos.wf(),
        bars_updated(before, after, infos, selected),
        0 <= i < j < 12,
        after.slots@[j] is Some,
        after.slots@[j] != before.slots@[j],
    ensures
        after.slots@[i] is Some,
        ({
            let busiest = top_streams(infos@, infos.keys());
            0 <= a < busiest.len() && 0 <= b < busiest.len() && after.slots@[i] == Some(busiest[a])
                && after.slots@[j] == Some(busiest[b]) && before.slots@[i] != after.slots@[i]
                ==> a < b
        }),
{
    let busiest = top_streams(infos@, infos.keys());
    infos.lemma_keys();
    top_streams_are_known(infos@, infos.keys());
    newcomers_take_the_first_free_slot(before.slots@, busiest, i, j);
    if 0 <= a < busiest.len() && 0 <= b < busiest.len() && after.slots@[i] == Some(busiest[a])
        && after.slots@[j] == Some(busiest[b]) && before.slots@[i] != after.slots@[i] {
        busier_newcomers_stand_first(before.slots@, busiest, a, b, i, j);
    }
}

/// At most one bar of a screen is bold, and it is that of the selected stream.
pub proof fn one_bar_at_most_is_bold(
    before: StreamBarRenderer,
    after: StreamBarRenderer,
    infos: StreamMap<StreamInfo>,
    selected: Option<V4L2Stream>,
    view: BarsView,
    i: int,
    j: int,
)
    requires
        bars_updated(before, after, infos, selected),
        after.wf(),
        shows_bars(view, after),
        0 <= i < 12,
        0 <= j < 12,
        view.rows@[i / 2]@[i % 2] matches Some(bar) && bar.bold,
        view.rows@[j / 2]@[j % 2] matches Some(bar) && bar.bold,
    ensures
        i == j,
        selected is Some,
        after.slots@[i] == selected,
{
    slots_are_drawn_two_by_two(view, after, i);
    slots_are_drawn_two_by_two(view, after, j);
    slots_show_the_current_usage(before, after, infos, selected, i);
    slots_show_the_current_usage(before, after, infos, selected, j);
    assert(after.slots@[i] == selected && after.slots@[j] == selected);
}

/// The total usage is no less than 100, no less than the sum, and one of the two.
pub proof fn totals_are_the_sum_or_the_whole(bars: StreamBarRenderer)
    ensures
        bars.total_or_whole() >= 100,
        bars.total_or_whole() >= bars.usage,
        bars.total_or_whole() == 100 || bars.total_or_whole() == bars.usage,
{
}

/// The streams whose usage is known take part in the ranking, each with its usage, and no others
/// do.
pub proof fn known_usages_are_ranked(
    infos: Map<V4L2Stream, StreamInfo>,
    streams: Seq<V4L2Stream>,
    stream: V4L2Stream,
    percent: u8,
)
    requires
        ascending(streams),
    ensures
        ranked(measured(infos, streams)).contains((stream, percent)) <==> streams.contains(stream)
            && infos[stream].usage.current_usage == Some(percent),
{
    let entries = measured(infos, streams);
    lemma_measured(infos, streams);
    ranked_is_ranking(entries);
    assert(ranked(entries).contains((stream, percent)) <==> entries.contains((stream, percent)));
    if entries.contains((stream, percent)) {
        let i = choose|i: int| 0 <= i < entries.len() && entries[i] == (stream, percent);
        assert(streams.contains(entries[i].0));
    }
}

/// Of the streams that are shown, one that comes first is busier, or as busy and first by process
/// and descriptor.
pub proof fn busier_streams_come_first(
    infos: Map<V4L2Stream, StreamInfo>,
    streams: Seq<V4L2Stream>,
    i: int,
    j: int,
)
    requires
        ascending(streams),
        0 <= i < j < top_streams(infos, streams).len(),
    ensures
        ({
            let a = top_streams(infos, streams)[i];
            let b = top_streams(infos, streams)[j];
            let first = infos[a].usage.current_usage;
            let second = infos[b].usage.current_usage;
            &&& first is Some && second is Some
            &&& first->0 > second->0 || (first->0 == second->0 && (a.pid < b.pid || (a.pid == b.pid
                && a.fd < b.fd)))
        }),
{
    let entries = measured(infos, streams);
    let all = ranked(entries);
    let best = top(all);
    lemma_measured(infos, streams);
    ranked_is_ranking(entries);
    assert(best[i] == all[i] && best[j] == all[j]);
    assert(outranks(all[i], all[j]));
    assert(all.contains(all[i]) && all.contains(all[j]));
    known_usages_are_ranked(infos, streams, all[i].0, all[i].1);
    known_usages_are_ranked(infos, streams, all[j].0, all[j].1);
}

/// A bar is left over only if every stream with a known usage is shown.
pub proof fn no_bar_is_wasted(
    infos: Map<V4L2Stream, StreamInfo>,
    streams: Seq<V4L2Stream>,
    stream: V4L2Stream,
)
    requires
        ascending(streams),
        top_streams(infos, streams).len() < 12,
    ensures
        top_streams(infos, streams).contains(stream) <==> streams.contains(stream)
            && infos[stream].usage.current_usage is Some,
{
    let shown_streams = top_streams(infos, streams);
    top_streams_are_known(infos, streams);
    if streams.contains(stream) && infos[stream].usage.current_usage is Some {
        let e = (stream, infos[stream].usage.current_usage->0);
        let all = ranked(measured(infos, streams));
        known_usages_are_ranked(infos, streams, stream, e.1);
        let i = choose|i: int| 0 <= i < all.len() && all[i] == e;
        assert(shown_streams[i] == stream);
    }
}

/// Where filling puts streams: no free slot is left in front of one that was filled.
proof fn lemma_filled_without_gaps(
    slots: Seq<Option<V4L2Stream>>,
    streams: Seq<V4L2Stream>,
    i: int,
    j: int,
)
    requires
        0 <= i < j < slots.len(),
        slots[j] is None,
        filled(slots, streams)[j] is Some,
    ensures
        filled(slots, streams)[i] is Some,
    decreases streams.len(),
{
    if streams.len() > 0 {
        let rest = streams.drop_last();
        let before = filled(slots, rest);
        lemma_filled(slots, rest);
        lemma_first_free_place(before);
        if before[j] is Some {
            lemma_filled_without_gaps(slots, rest, i, j);
        }
    }
}

/// A stream that is new takes the first slot that is free: no slot before it stays free.
pub proof fn newcomers_take_the_first_free_slot(
    slots: Seq<Option<V4L2Stream>>,
    streams: Seq<V4L2Stream>,
    i: int,
    j: int,
)
    requires
        0 <= i < j < slots.len(),
        reassigned(slots, streams)[j] is Some,
        reassigned(slots, streams)[j] != slots[j],
    ensures
        reassigned(slots, streams)[i] is Some,
{
    let k = kept(slots, streams);
    lemma_filled(k, streams);
    if k[j] is Some {
        assert(k[j] == slots[j]);
    }
    lemma_filled_without_gaps(k, streams, i, j);
}

/// A slot whose stream is not to be shown any more is free for another, or stays free.
pub proof fn evicted_streams_leave(
    slots: Seq<Option<V4L2Stream>>,
    streams: Seq<V4L2Stream>,
    i: int,
)
    requires
        0 <= i < slots.len(),
        reassigned(slots, streams)[i] is Some,
    ensures
        streams.contains(reassigned(slots, streams)[i]->0),
{
    let k = kept(slots, streams);
    lemma_filled(k, streams);
    if k[i] is Some {
        assert(k[i] == slots[i]);
    }
}

/// Where filling puts two streams: the one that is listed first stands first.
proof fn lemma_filled_in_order(
    slots: Seq<Option<V4L2Stream>>,
    streams: Seq<V4L2Stream>,
    a: int,
    b: int,
    i: int,
    j: int,
)
    requires
        streams.no_duplicates(),
        0 <= a < streams.len(),
        0 <= b < streams.len(),
        0 <= i < j < slots.len(),
        slots[i] is None,
        slots[j] is None,
        filled(slots, streams)[i] == Some(streams[a]),
        filled(slots, streams)[j] == Some(streams[b]),
    ensures
        a < b,
    decreases streams.len(),
{
    let rest = streams.drop_last();
    let last = streams.last();
    let n = streams.len() - 1;
    let before = filled(slots, rest);
    lemma_filled(slots, rest);
    lemma_first_free_place(before);
    lemma_filled(slots, streams);
    if a == n {
        // Slot `i` was filled last, so it was free until then, with slot `j` taken behind it.
        if before[j] is Some {
            if before[i] is None {
                lemma_filled_without_gaps(slots, rest, i, j);
            } else {
                assert(before[i] == Some(last));
                assert(rest.contains(last));
                let x = choose|x: int| 0 <= x < rest.len() && rest[x] == last;
                assert(streams[x] == streams[n]);
            }
        } else {
            assert(filled(slots, streams)[j] == Some(last));
            assert(before[i] is Some);
            assert(before[i] == Some(last));
            assert(rest.contains(last));
            let x = choose|x: int| 0 <= x < rest.len() && rest[x] == last;
            assert(streams[x] == streams[n]);
        }
    } else if b < n {
        assert(rest[a] == streams[a] && rest[b] == streams[b]);
        assert(streams[a] != last && streams[b] != last) by {
            assert(streams[n] == last);
        }
        assert(before[i] == Some(rest[a]));
        assert(before[j] == Some(rest[b]));
        lemma_filled_in_order(slots, rest, a, b, i, j);
    }
}

/// Of two streams that are new, the busier one stands first.
pub proof fn busier_newcomers_stand_first(
    slots: Seq<Option<V4L2Stream>>,
    streams: Seq<V4L2Stream>,
    a: int,
    b: int,
    i: int,
    j: int,
)
    requires
        streams.no_duplicates(),
        0 <= a < streams.len(),
        0 <= b < streams.len(),
        0 <= i < j < slots.len(),
        reassigned(slots, streams)[i] == Some(streams[a]),
        reassigned(slots, streams)[j] == Some(streams[b]),
        slots[i] != Some(streams[a]),
        slots[j] != Some(streams[b]),
    ensures
        a < b,
{
    let k = kept(slots, streams);
    lemma_filled(k, streams);
    assert(k[i] is Some ==> k[i] == slots[i]);
    assert(k[j] is Some ==> k[j] == slots[j]);
    lemma_filled_in_order(k, streams, a, b, i, j);
}

} // verus!
