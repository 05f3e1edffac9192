//! The whole screen: what it holds, what keys do to it, and what is drawn.

use vstd::prelude::*;

use crate::bars::{bars_updated, shows_bars, BarsView, StreamBarRenderer};
use crate::codec::{
    decoder_time_of, total_of, total_usage_of, CodecUsage, StreamInfo, UsageRendererType,
    UsageSample,
};
use crate::history::{recorded, shows_chart, ChartView, UsageHistoryRenderer};
use crate::stream::{ascending, keys_of, StreamMap, V4L2Stream};
use crate::table::{
    check_memory, memory_fits, memory_of, row_after, row_before, shows_buffers, shows_table,
    StreamTableRenderer, TableView,
};
use crate::text::{
    append_chars, from_chars, is_white_space, to_chars, trim_chars, trim_end, trim_start, trimmed,
    trimming_leaves_the_middle, NumberError,
};
use crate::v4l2_mem::{DMABuffer, MemError};
use crate::v4l2_stats::{ScanError, V4l2FdInfo};

verus! {

/// How many ticks the chart shows.
pub const HISTORY_POINTS: usize = 300;

/// The text of a file of `/proc`, fit for one line: without white space around it, and with spaces
/// in place of the zero bytes between its parts.
pub open spec fn one_line(text: Seq<char>) -> Seq<char> {
    trimmed(text).map_values(
        |c: char|
            if c == '\0' {
                ' '
            } else {
                c
            },
    )
}

/// What a file of `/proc` comes to; it is missing where it could not be read.
pub open spec fn proc_text(text: Option<String>) -> Seq<char> {
    match text {
        Some(t) => one_line(t@),
        None => "unknown"@,
    }
}

/// What a file of `/proc` comes to.
pub fn read_proc_text(text: &Option<String>) -> (r: String)
    ensures
        r@ == proc_text(*text),
{
    match text {
        Some(t) => {
            let chars: Vec<char> = trim_chars(&to_chars(t.as_str()));
            let mut out: Vec<char> = Vec::new();
            let mut i: usize = 0;
            while i < chars.len()
                invariant
                    i <= chars.len(),
                    out.len() == i,
                    forall|j: int|
                        0 <= j < i ==> #[trigger] out@[j] == if chars@[j] == '\0' {
                            ' '
                        } else {
                            chars@[j]
                        },
                decreases chars.len() - i,
            {
                let c: char = chars[i];
                out.push(
                    if c == '\0' {
                        ' '
                    } else {
                        c
                    },
                );
                i += 1;
            }
            assert(out@ =~= one_line(t@));
            from_chars(&out)
        },
        None => "unknown".to_owned(),
    }
}

/// A stream as it was found, with what was read about its process.
pub struct StreamReading {
    pub info: V4l2FdInfo,
    /// The file with the name of the command.
    pub comm: Option<String>,
    /// The file with the command line.
    pub cmdline: Option<String>,
    /// The time of the update, in nanoseconds.
    pub now: u64,
    /// The usage that the sample of that time gives, where there is one.
    pub percent: Option<u8>,
}

/// What a map has for a stream.
pub open spec fn entry_of<V>(m: Map<V4L2Stream, V>, stream: V4L2Stream) -> Option<V> {
    if m.contains_key(stream) {
        Some(m[stream])
    } else {
        None
    }
}

/// The usage of a stream that may have been known before.
pub open spec fn usage_before(known: Option<StreamInfo>) -> CodecUsage {
    match known {
        Some(info) => info.usage,
        None => CodecUsage { last_read: None, last_value_ns: None, current_usage: None },
    }
}

/// A reading has a usage where there is a sample to compute it from.
pub open spec fn fits(reading: StreamReading, known: Option<StreamInfo>) -> bool {
    reading.percent is Some <==> usage_before(known).sample_of(
        decoder_time_of(reading.info@.fields),
        reading.now,
    ) is Some
}

/// What a reading makes of a stream. A stream that was known before keeps its first fdinfo and the
/// texts about its process; its usage and its buffers are brought up to date.
pub open spec fn is_updated(
    new: StreamInfo,
    known: Option<StreamInfo>,
    reading: StreamReading,
    buffers: Option<Vec<DMABuffer>>,
) -> bool {
    &&& match known {
        Some(old_info) => {
            &&& new.v4l2_info == old_info.v4l2_info
            &&& new.comm == old_info.comm
            &&& new.cmdline == old_info.cmdline
        },
        None => {
            &&& new.v4l2_info == reading.info
            &&& new.comm@ == proc_text(reading.comm)
            &&& new.cmdline@ == proc_text(reading.cmdline)
        },
    }
    &&& new.usage == usage_before(known).updated(
        decoder_time_of(reading.info@.fields),
        reading.info.timestamp,
        reading.percent,
    )
    &&& new.mem_usage@ == match buffers {
        Some(b) => b@,
        None => Seq::empty(),
    }
}

/// What the readings make of the streams: those that were found are known, each as its reading and
/// its buffers make it, and no others are.
pub open spec fn streams_updated(
    before: Map<V4L2Stream, StreamInfo>,
    after: Map<V4L2Stream, StreamInfo>,
    found: Map<V4L2Stream, StreamReading>,
    mem: Map<V4L2Stream, Vec<DMABuffer>>,
) -> bool {
    &&& after.dom() == found.dom()
    &&& forall|s: V4L2Stream| #[trigger]
        found.contains_key(s) ==> is_updated(
            after[s],
            entry_of(before, s),
            found[s],
            entry_of(mem, s),
        )
}

/// What a reading makes of a stream.
fn update_info(
    known: Option<StreamInfo>,
    reading: StreamReading,
    buffers: Option<&Vec<DMABuffer>>,
) -> (r: StreamInfo)
    requires
        fits(reading, known),
    ensures
        is_updated(
            r,
            known,
            reading,
            match buffers {
                Some(b) => Some(*b),
                None => None,
            },
        ),
{
    let mem_usage: Vec<DMABuffer> = match buffers {
        Some(b) => copy_buffers(b),
        None => Vec::new(),
    };
    match known {
        Some(info) => {
            let mut usage: CodecUsage = info.usage;
            usage.update(&reading.info, reading.now, reading.percent);
            StreamInfo { usage, mem_usage, ..info }
        },
        None => {
            let mut usage: CodecUsage = CodecUsage::new();
            usage.update(&reading.info, reading.now, reading.percent);
            StreamInfo {
                v4l2_info: reading.info,
                comm: read_proc_text(&reading.comm),
                cmdline: read_proc_text(&reading.cmdline),
                usage,
                mem_usage,
            }
        },
    }
}

/// Why the data could not be brought up to date.
#[derive(Clone, Copy, Debug, PartialEq, Eq, Structural)]
pub enum UpdateError {
    Stats(ScanError),
    Mem(MemError),
}

impl UpdateError {
    /// What the error reads as; `cause` is why something could not be read.
    pub open spec fn text(self, cause: Seq<char>) -> Seq<char> {
        match self {
            UpdateError::Stats(ScanError::Unreadable) => "Error fetching V4L2 stats: "@ + cause,
            UpdateError::Stats(ScanError::Number(e)) => "Error fetching V4L2 stats: "@ + e.text(),
            UpdateError::Mem(MemError::Unreadable) => cause,
            UpdateError::Mem(MemError::Number(e)) => e.text(),
        }
    }

    /// The error in words.
    pub fn message(self, cause: &str) -> (r: String)
        ensures
            r@ == self.text(cause@),
    {
        let mut r: Vec<char> = Vec::new();
        match self {
            UpdateError::Stats(ScanError::Unreadable) => {
                r = to_chars("Error fetching V4L2 stats: ");
                append_chars(&mut r, &to_chars(cause));
            },
            UpdateError::Stats(ScanError::Number(e)) => {
                r = to_chars("Error fetching V4L2 stats: ");
                append_chars(&mut r, &to_chars(e.message().as_str()));
            },
            UpdateError::Mem(MemError::Unreadable) => {
                r = to_chars(cause);
            },
            UpdateError::Mem(MemError::Number(e)) => {
                r = to_chars(e.message().as_str());
            },
        }
        from_chars(&r)
    }
}

/// A copy of buffers.
fn copy_buffers(buffers: &Vec<DMABuffer>) -> (r: Vec<DMABuffer>)
    ensures
        r@ == buffers@,
{
    let mut r: Vec<DMABuffer> = Vec::new();
    let mut i: usize = 0;
    while i < buffers.len()
        invariant
            i <= buffers.len(),
            r@ == buffers@.take(i as int),
        decreases buffers.len() - i,
    {
        let b: &DMABuffer = &buffers[i];
        r.push(DMABuffer { label: b.label.clone(), size: b.size });
        assert(buffers@.take(i + 1) =~= buffers@.take(i as int).push(buffers@[i as int]));
        i += 1;
    }
    assert(buffers@.take(buffers.len() as int) =~= buffers@);
    r
}

/// A key, as far as keys matter.
#[derive(Clone, Copy, Debug, PartialEq, Eq, Structural)]
pub enum Key {
    Char(char),
    F(u8),
    Up,
    Down,
    Other,
}

/// What a key asks for.
#[derive(Clone, Copy, Debug, PartialEq, Eq, Structural)]
pub enum Command {
    Quit,
    ShiftUsageRenderer,
    FlipShowBytes,
    FlipFullCmd,
    SelectPrevious,
    SelectNext,
    Nothing,
}

/// What a key asks for.
pub open spec fn command_of(key: Key, control: bool) -> Command {
    match key {
        Key::Char(c) => if c == 'q' || (c == 'c' && control) {
            Command::Quit
        } else {
            Command::Nothing
        },
        Key::F(n) => if n == 2 {
            Command::ShiftUsageRenderer
        } else if n == 3 {
            Command::FlipShowBytes
        } else if n == 4 {
            Command::FlipFullCmd
        } else {
            Command::Nothing
        },
        Key::Up => Command::SelectPrevious,
        Key::Down => Command::SelectNext,
        Key::Other => Command::Nothing,
    }
}

/// What a key asks for; `control` says whether the control key is held down.
pub fn command_for(key: Key, control: bool) -> (r: Command)
    ensures
        r == command_of(key, control),
{
    match key {
        Key::Char('q') => Command::Quit,
        Key::Char('c') => {
            if control {
                Command::Quit
            } else {
                Command::Nothing
            }
        },
        Key::F(2) => Command::ShiftUsageRenderer,
        Key::F(3) => Command::FlipShowBytes,
        Key::F(4) => Command::FlipFullCmd,
        Key::Up => Command::SelectPrevious,
        Key::Down => Command::SelectNext,
        _ => Command::Nothing,
    }
}

/// The usage as it is drawn.
pub enum UsageView {
    Chart(ChartView),
    PerPid(BarsView),
}

/// The screen as it is drawn.
pub struct Screen {
    pub usage: UsageView,
    pub table: TableView,
    /// The row of the table that is to be marked.
    pub selected: Option<usize>,
}

/// All that is known and shown.
pub struct TopRenderer {
    pub usage_renderer: UsageRendererType,
    pub usage_history: UsageHistoryRenderer,
    pub stream_bars: StreamBarRenderer,
    pub table_renderer: StreamTableRenderer,
    pub infos: StreamMap<StreamInfo>,
}

impl TopRenderer {
    /// The usage of every stream is a percentage.
    pub open spec fn usages_wf(infos: Map<V4L2Stream, StreamInfo>) -> bool {
        forall|s: V4L2Stream| #[trigger] infos.contains_key(s) ==> infos[s].usage.wf()
    }

    /// Each part is in order.
    pub open spec fn wf(self) -> bool {
        &&& self.usage_history.wf()
        &&& self.usage_history.max_points == HISTORY_POINTS
        &&& self.stream_bars.wf()
        &&& Self::usages_wf(self.infos@)
    }

    /// An empty screen.
    pub fn new() -> (r: Self)
        ensures
            r.wf(),
            r.usage_renderer == UsageRendererType::PerPid,
            r.usage_history.is_unused(),
            r.stream_bars.is_unused(),
            r.table_renderer.selected == Some(0usize),
            !r.table_renderer.show_bytes,
            !r.table_renderer.full_cmd,
            r.table_renderer.keys@.len() == 0,
            r.infos@ == Map::<V4L2Stream, StreamInfo>::empty(),
            r.infos.keys() == Seq::<V4L2Stream>::empty(),
    {
        TopRenderer {
            usage_history: UsageHistoryRenderer::new(HISTORY_POINTS),
            usage_renderer: UsageRendererType::PerPid,
            stream_bars: StreamBarRenderer::new(),
            table_renderer: StreamTableRenderer::new(),
            infos: StreamMap::new(),
        }
    }

    /// What the usage of a stream is to be computed from, if it can be computed at the time `now`.
    pub fn sample(&self, stream: &V4L2Stream, info: &V4l2FdInfo, now: u64) -> (r: Option<
        UsageSample,
    >)
        ensures
            r == usage_before(entry_of(self.infos@, *stream)).sample_of(
                decoder_time_of(info@.fields),
                now,
            ),
    {
        match self.infos.get(stream) {
            Some(known) => known.usage.sample(info, now),
            None => None,
        }
    }

    /// Brings the streams up to date: those that are gone are removed, new ones are added, and the
    /// usage and the buffers of all are those of the readings. With an error nothing changes.
    pub fn update_data(
        &mut self,
        readings: Result<StreamMap<StreamReading>, ScanError>,
        mem: &Result<StreamMap<Vec<DMABuffer>>, MemError>,
    ) -> (r: Result<(), UpdateError>)
        requires
            readings matches Ok(found) ==> forall|s: V4L2Stream| #[trigger]
                found@.contains_key(s) ==> fits(found@[s], entry_of(old(self).infos@, s)),
        ensures
            final(self).usage_renderer == old(self).usage_renderer,
            final(self).usage_history == old(self).usage_history,
            final(self).stream_bars == old(self).stream_bars,
            final(self).table_renderer == old(self).table_renderer,
            old(self).wf() ==> final(self).wf(),
            match (readings, *mem) {
                (Err(e), _) => r == Err::<(), UpdateError>(UpdateError::Stats(e))
                    && final(self).infos == old(self).infos,
                (Ok(_), Err(e)) => r == Err::<(), UpdateError>(UpdateError::Mem(e))
                    && final(self).infos == old(self).infos,
                (Ok(found), Ok(mem)) => {
                    &&& r == Ok::<(), UpdateError>(())
                    &&& streams_updated(old(self).infos@, final(self).infos@, found@, mem@)
                },
            },
    {
        let found: StreamMap<StreamReading> = match readings {
            Ok(found) => found,
            Err(e) => {
                return Err(UpdateError::Stats(e));
            },
        };
        let mem: &StreamMap<Vec<DMABuffer>> = match mem {
            Ok(mem) => mem,
            Err(e) => {
                return Err(UpdateError::Mem(*e));
            },
        };
        let ghost before = self.infos@;
        let ghost all = found@;
        let mut infos: StreamMap<StreamInfo> = StreamMap::new();
        std::mem::swap(&mut infos, &mut self.infos);
        let mut rest: Vec<(V4L2Stream, StreamReading)> = found.into_entries();
        let ghost entries = rest@;
        assert(entries.take(entries.len() as int) =~= entries);
        assert(forall|s: V4L2Stream| #[trigger]
            all.contains_key(s) ==> keys_of(entries).contains(s));
        loop
            invariant
                rest.len() <= entries.len(),
                rest@ == entries.take(rest.len() as int),
                ascending(keys_of(entries)),
                forall|i: int|
                    0 <= i < entries.len() ==> all.contains_key((#[trigger] entries[i]).0)
                        && all[entries[i].0] == entries[i].1,
                forall|s: V4L2Stream| #[trigger]
                    all.contains_key(s) ==> fits(all[s], entry_of(before, s)),
                self.usage_renderer == old(self).usage_renderer,
                self.usage_history == old(self).usage_history,
                self.stream_bars == old(self).stream_bars,
                self.table_renderer == old(self).table_renderer,
                forall|i: int|
                    0 <= i < rest.len() ==> entry_of(infos@, (#[trigger] entries[i]).0) == entry_of(
                        before,
                        entries[i].0,
                    ),
                forall|i: int|
                    rest.len() <= i < entries.len() ==> self.infos@.contains_key(
                        (#[trigger] entries[i]).0,
                    ) && is_updated(
                        self.infos@[entries[i].0],
                        entry_of(before, entries[i].0),
                        entries[i].1,
                        entry_of(mem@, entries[i].0),
                    ),
                forall|s: V4L2Stream| #[trigger] self.infos@.contains_key(s) ==> all.contains_key(s),
            ensures
                rest.len() == 0,
            decreases rest.len(),
        {
            let (stream, reading) = match rest.pop() {
                Some(e) => e,
                None => {
                    break ;
                },
            };
            let ghost n = rest.len() as int;
            proof {
                assert((stream, reading) == entries[n]);
                assert(rest@ =~= entries.take(n));
                assert(all.contains_key(entries[n].0));
                let keys = keys_of(entries);
                assert forall|i: int| 0 <= i < entries.len() && i != n implies (
                #[trigger] entries[i]).0 != stream by {
                    if i < n {
                        assert(keys[i].before(keys[n]));
                    } else {
                        assert(keys[n].before(keys[i]));
                    }
                }
            }
            let known: Option<StreamInfo> = infos.remove(&stream);
            assert(known == entry_of(before, stream));
            let info: StreamInfo = update_info(known, reading, mem.get(&stream));
            self.infos.insert(stream, info);
        }
        proof {
            let keys = keys_of(entries);
            assert forall|s: V4L2Stream| #[trigger] all.contains_key(s) implies
                self.infos@.contains_key(s) && is_updated(
                    self.infos@[s],
                    entry_of(before, s),
                    all[s],
                    entry_of(mem@, s),
                ) by {
                assert(keys.contains(s));
                let i = choose|i: int| 0 <= i < keys.len() && keys[i] == s;
                assert(entries[i].0 == s);
            }
            assert(self.infos@.dom() =~= all.dom());
            if old(self).wf() {
                assert forall|s: V4L2Stream| #[trigger] self.infos@.contains_key(s) implies
                    self.infos@[s].usage.wf() by {
                    assert(all.contains_key(s));
                    assert(fits(all[s], entry_of(before, s)));
                    assert(before.contains_key(s) ==> before[s].usage.wf());
                }
            }
        }
        Ok(())
    }
}

impl TopRenderer {
    /// The streams can be drawn: the memory of each stream is in range, and so is what the usage is
    /// drawn from. For the chart the ticks have not run out; for the bars the usages, whose sum has
    /// a gauge of its own, make up no more than the whole.
    pub open spec fn drawable(self) -> bool {
        &&& memory_fits(self.infos@)
        &&& match self.usage_renderer {
            UsageRendererType::Chart => self.usage_history.tick < u64::MAX,
            UsageRendererType::PerPid => total_of(self.infos@, self.infos.keys()) <= 100,
        }
    }

    /// Whether the streams can be drawn.
    pub fn is_drawable(&self) -> (r: bool)
        ensures
            r == self.drawable(),
    {
        check_memory(&self.infos) && match self.usage_renderer {
            UsageRendererType::Chart => self.usage_history.tick < u64::MAX,
            UsageRendererType::PerPid => match total_usage_of(&self.infos) {
                Some(total) => total <= 100,
                None => false,
            },
        }
    }

    /// What is drawn. The chart records a snapshot first; the bars are assigned to the streams
    /// first, with the selection as it was drawn last.
    pub fn render(&mut self) -> (r: Screen)
        requires
            old(self).wf(),
            old(self).drawable(),
        ensures
            final(self).wf(),
            final(self).usage_renderer == old(self).usage_renderer,
            final(self).infos == old(self).infos,
            match old(self).usage_renderer {
                UsageRendererType::Chart => {
                    &&& final(self).stream_bars == old(self).stream_bars
                    &&& recorded(old(self).usage_history, final(self).usage_history, old(self).infos)
                    &&& r.usage matches UsageView::Chart(chart) && shows_chart(
                        chart,
                        final(self).usage_history,
                    )
                },
                UsageRendererType::PerPid => {
                    &&& final(self).usage_history == old(self).usage_history
                    &&& bars_updated(
                        old(self).stream_bars,
                        final(self).stream_bars,
                        old(self).infos,
                        old(self).table_renderer.stream_selected(),
                    )
                    &&& r.usage matches UsageView::PerPid(bars) && shows_bars(
                        bars,
                        final(self).stream_bars,
                    )
                },
            },
            final(self).table_renderer.keys@ == old(self).infos.keys(),
            forall|i: int|
                0 <= i < final(self).table_renderer.keys.len() ==> final(self).infos@.contains_key(
                    #[trigger] final(self).table_renderer.keys@[i],
                ),
            final(self).table_renderer.selected == old(self).table_renderer.selected,
            final(self).table_renderer.show_bytes == old(self).table_renderer.show_bytes,
            final(self).table_renderer.full_cmd == old(self).table_renderer.full_cmd,
            shows_table(r.table, old(self).table_renderer, old(self).infos),
            r.selected == old(self).table_renderer.selected,
    {
        let usage: UsageView = match self.usage_renderer {
            UsageRendererType::Chart => {
                self.usage_history.record(&self.infos);
                UsageView::Chart(self.usage_history.render())
            },
            UsageRendererType::PerPid => {
                self.stream_bars.update(&self.infos, self.table_renderer.selected_stream());
                UsageView::PerPid(self.stream_bars.render())
            },
        };
        let table: TableView = self.table_renderer.render(&self.infos);
        proof {
            use_type_invariant(&self.infos);
            self.infos.lemma_keys();
        }
        Screen { usage, table, selected: self.table_renderer.selected }
    }

    /// What is drawn of the buffers of the selected stream, once the table was drawn. Drawing
    /// corrects a selection that lies behind the last row; `selected` is what it was corrected to.
    pub fn render_mem_details(&mut self, selected: Option<usize>) -> (r: Vec<(String, String)>)
        requires
            (StreamTableRenderer {
                selected,
                ..old(self).table_renderer
            }).stream_selected() matches Some(s) ==> old(self).infos@.contains_key(s),
        ensures
            *final(self) == (TopRenderer {
                table_renderer: StreamTableRenderer { selected, ..old(self).table_renderer },
                ..*old(self)
            }),
            old(self).wf() ==> final(self).wf(),
            match final(self).table_renderer.stream_selected() {
                Some(s) => shows_buffers(
                    r@,
                    old(self).infos@[s].mem_usage@,
                    old(self).table_renderer.show_bytes,
                ),
                None => r.len() == 0,
            },
    {
        self.table_renderer.select(selected);
        self.table_renderer.render_mem_details(&self.infos)
    }

    /// Goes over to the other way to show the usage.
    pub fn shift_usage_renderer(&mut self)
        ensures
            *final(self) == (TopRenderer {
                usage_renderer: old(self).usage_renderer.other(),
                ..*old(self)
            }),
    {
        self.usage_renderer.shift();
    }

    /// Goes over from compact sizes to full ones, or back.
    pub fn show_bytes_flip(&mut self)
        ensures
            *final(self) == (TopRenderer {
                table_renderer: StreamTableRenderer {
                    show_bytes: !old(self).table_renderer.show_bytes,
                    ..old(self).table_renderer
                },
                ..*old(self)
            }),
    {
        self.table_renderer.show_bytes_flip();
    }

    /// Goes over from the name of the command to the whole command line, or back.
    pub fn full_cmd_flip(&mut self)
        ensures
            *final(self) == (TopRenderer {
                table_renderer: StreamTableRenderer {
                    full_cmd: !old(self).table_renderer.full_cmd,
                    ..old(self).table_renderer
                },
                ..*old(self)
            }),
    {
        self.table_renderer.full_cmd = !self.table_renderer.full_cmd;
    }

    /// Selects the row above.
    pub fn select_previous(&mut self)
        ensures
            *final(self) == (TopRenderer {
                table_renderer: StreamTableRenderer {
                    selected: Some(row_before(old(self).table_renderer.selected)),
                    ..old(self).table_renderer
                },
                ..*old(self)
            }),
    {
        self.table_renderer.select_previous();
    }

    /// Selects the row below.
    pub fn select_next(&mut self)
        ensures
            *final(self) == (TopRenderer {
                table_renderer: StreamTableRenderer {
                    selected: Some(row_after(old(self).table_renderer.selected)),
                    ..old(self).table_renderer
                },
                ..*old(self)
            }),
    {
        self.table_renderer.select_next();
    }

    /// The screen after a command.
    pub open spec fn commanded(self, command: Command) -> TopRenderer {
        let table = self.table_renderer;
        match command {
            Command::Quit | Command::Nothing => self,
            Command::ShiftUsageRenderer => TopRenderer {
                usage_renderer: self.usage_renderer.other(),
                ..self
            },
            Command::FlipShowBytes => TopRenderer {
                table_renderer: StreamTableRenderer { show_bytes: !table.show_bytes, ..table },
                ..self
            },
            Command::FlipFullCmd => TopRenderer {
                table_renderer: StreamTableRenderer { full_cmd: !table.full_cmd, ..table },
                ..self
            },
            Command::SelectPrevious => TopRenderer {
                table_renderer: StreamTableRenderer {
                    selected: Some(row_before(table.selected)),
                    ..table
                },
                ..self
            },
            Command::SelectNext => TopRenderer {
                table_renderer: StreamTableRenderer {
                    selected: Some(row_after(table.selected)),
                    ..table
                },
                ..self
            },
        }
    }

    /// Does what a key asks for, and says whether to go on.
    pub fn handle(&mut self, key: Key, control: bool) -> (r: bool)
        ensures
            *final(self) == old(self).commanded(command_of(key, control)),
            r == (command_of(key, control) != Command::Quit),
            old(self).wf() ==> final(self).wf(),
    {
        match command_for(key, control) {
            Command::Quit => {
                return false;
            },
            Command::ShiftUsageRenderer => self.shift_usage_renderer(),
            Command::FlipShowBytes => self.show_bytes_flip(),
            Command::FlipFullCmd => self.full_cmd_flip(),
            Command::SelectPrevious => self.select_previous(),
            Command::SelectNext => self.select_next(),
            Command::Nothing => {},
        }
        true
    }
}

/// The keys that go over to another way to show things lead back when they are pressed again.
pub proof fn flips_lead_back(t: TopRenderer, command: Command)
    requires
        command == Command::ShiftUsageRenderer || command == Command::FlipShowBytes || command
            == Command::FlipFullCmd,
    ensures
        t.commanded(command).commanded(command) == t,
{
}

/// No key changes the data: what is known of the streams, the history and the bars stay.
pub proof fn keys_leave_the_data(t: TopRenderer, key: Key, control: bool)
    ensures
        t.commanded(command_of(key, control)).infos == t.infos,
        t.commanded(command_of(key, control)).usage_history == t.usage_history,
        t.commanded(command_of(key, control)).stream_bars == t.stream_bars,
        t.commanded(command_of(key, control)).table_renderer.keys == t.table_renderer.keys,
{
}

/// A text without white space at its ends is shown in full: it is as long as before, with a space
/// in place of each zero byte and every other character as it is.
pub proof fn texts_are_shown_in_full(text: Seq<char>, i: int)
    requires
        text.len() > 0 ==> !is_white_space(text[0]) && !is_white_space(text.last()),
    ensures
        one_line(text).len() == text.len(),
        0 <= i < text.len() && text[i] == '\0' ==> one_line(text)[i] == ' ',
        0 <= i < text.len() && text[i] != '\0' ==> one_line(text)[i] == text[i],
{
    assert(trim_start(text) == text);
    assert(trim_end(text) == text);
}

/// White space around a text does not matter to what is shown of it.
pub proof fn white_space_around_is_not_shown(text: Seq<char>) -> (bounds: (int, int))
    ensures
        0 <= bounds.0 <= bounds.1 <= text.len(),
        one_line(text) == one_line(text.subrange(bounds.0, bounds.1)),
        one_line(text).len() == bounds.1 - bounds.0,
        forall|i: int| 0 <= i < bounds.0 ==> is_white_space(#[trigger] text[i]),
        forall|i: int| bounds.1 <= i < text.len() ==> is_white_space(#[trigger] text[i]),
{
    let (a, b) = trimming_leaves_the_middle(text);
    let middle = text.subrange(a, b);
    if a < b {
        assert(middle[0] == text[a] && middle.last() == text[b - 1]);
    }
    assert(trim_start(middle) == middle);
    assert(trim_end(middle) == middle);
    (a, b)
}

/// A file that was read is shown, and one that could not be read is unknown.
pub proof fn unread_files_are_unknown(text: String)
    ensures
        proc_text(None) == "unknown"@,
        proc_text(Some(text)) == one_line(text@),
{
}

/// A stream that was known keeps its fdinfo and the texts about its process, and its usage goes on
/// from what it was. Its buffers are those that are listed for it now, or none.
pub proof fn known_streams_keep_their_texts(
    new: StreamInfo,
    known: StreamInfo,
    reading: StreamReading,
    buffers: Option<Vec<DMABuffer>>,
)
    requires
        is_updated(new, Some(known), reading, buffers),
    ensures
        new.v4l2_info == known.v4l2_info,
        new.comm == known.comm,
        new.cmdline == known.cmdline,
        buffers is None ==> new.mem_usage@.len() == 0,
        buffers is Some ==> new.mem_usage@ == buffers->0@,
        reading.percent is Some ==> {
            &&& new.usage.last_read == known.usage.last_read
            &&& new.usage.last_value_ns == known.usage.last_value_ns
            &&& new.usage.current_usage is Some
            &&& reading.percent->0 <= 100 ==> new.usage.current_usage == reading.percent
            &&& reading.percent->0 > 100 ==> new.usage.current_usage == Some(100u8)
        },
        reading.percent is None ==> {
            &&& new.usage.last_read == Some(reading.info.timestamp)
            &&& new.usage.last_value_ns == decoder_time_of(reading.info@.fields)
            &&& new.usage.current_usage == known.usage.current_usage
        },
{
}

/// A stream that is new has the fdinfo and the texts that were read, a first reading and no usage
/// yet, and the buffers that are listed for it, or none.
pub proof fn new_streams_start_with_a_reading(
    new: StreamInfo,
    reading: StreamReading,
    buffers: Option<Vec<DMABuffer>>,
)
    requires
        fits(reading, None),
        is_updated(new, None, reading, buffers),
    ensures
        reading.percent is None,
        new.v4l2_info == reading.info,
        new.comm@ == match reading.comm {
            Some(text) => one_line(text@),
            None => "unknown"@,
        },
        new.cmdline@ == match reading.cmdline {
            Some(text) => one_line(text@),
            None => "unknown"@,
        },
        new.usage.last_read == Some(reading.info.timestamp),
        new.usage.last_value_ns == decoder_time_of(reading.info@.fields),
        new.usage.current_usage is None,
        buffers is None ==> new.mem_usage@.len() == 0,
        buffers is Some ==> new.mem_usage@ == buffers->0@,
{
}

/// The streams that are known after an update are those that were found: one that is gone is not
/// known any more, one that was known keeps its texts, a new one has those that were read, and each
/// has the buffers that are listed for it and for no other.
pub proof fn known_streams_are_those_found(
    before: Map<V4L2Stream, StreamInfo>,
    after: Map<V4L2Stream, StreamInfo>,
    found: Map<V4L2Stream, StreamReading>,
    mem: Map<V4L2Stream, Vec<DMABuffer>>,
    stream: V4L2Stream,
)
    requires
        streams_updated(before, after, found, mem),
    ensures
        after.contains_key(stream) <==> found.contains_key(stream),
        found.contains_key(stream) ==> {
            &&& mem.contains_key(stream) ==> after[stream].mem_usage@ == mem[stream]@
            &&& !mem.contains_key(stream) ==> after[stream].mem_usage@.len() == 0
            &&& before.contains_key(stream) ==> after[stream].comm == before[stream].comm
                && after[stream].cmdline == before[stream].cmdline && after[stream].v4l2_info
                == before[stream].v4l2_info
            &&& !before.contains_key(stream) ==> after[stream].comm@ == proc_text(
                found[stream].comm,
            ) && after[stream].cmdline@ == proc_text(found[stream].cmdline)
                && after[stream].v4l2_info == found[stream].info
        },
{
    assert(after.contains_key(stream) <==> after.dom().contains(stream));
    assert(found.contains_key(stream) <==> found.dom().contains(stream));
}

/// A usage is computed for a stream exactly if it was known, with a reading that stated a time, the
/// new reading states one too, and time has passed.
pub proof fn usages_are_computed_from_two_readings(reading: StreamReading, known: StreamInfo)
    ensures
        fits(reading, Some(known)) <==> (reading.percent is Some <==> {
            &&& known.usage.last_read is Some && known.usage.last_read->0 < reading.now
            &&& known.usage.last_value_ns is Some
            &&& decoder_time_of(reading.info@.fields) is Some
        }),
        fits(reading, None) <==> reading.percent is None,
{
}

/// What a map has for a stream, and what it has not.
pub proof fn entries_are_those_of_the_map<V>(m: Map<V4L2Stream, V>, stream: V4L2Stream)
    ensures
        m.contains_key(stream) ==> entry_of(m, stream) == Some(m[stream]),
        !m.contains_key(stream) ==> entry_of(m, stream) is None,
{
}

/// An error tells its cause in full: why something could not be read, or what is wrong with a
/// number. Those of the scan say that they are.
pub proof fn errors_tell_their_cause(cause: Seq<char>, e: NumberError)
    ensures
        UpdateError::Stats(ScanError::Unreadable).text(cause) == "Error fetching V4L2 stats: "@
            + cause,
        UpdateError::Stats(ScanError::Number(e)).text(cause) == "Error fetching V4L2 stats: "@
            + e.text(),
        UpdateError::Mem(MemError::Unreadable).text(cause) == cause,
        UpdateError::Mem(MemError::Number(e)).text(cause) == e.text(),
{
}

/// The keys that quit are `q`, with the control key or without, and `c` with it, and no others.
pub proof fn q_and_control_c_quit(key: Key, control: bool)
    ensures
        command_of(key, control) == Command::Quit <==> key == Key::Char('q') || (key == Key::Char(
            'c',
        ) && control),
{
}

/// Each command but quitting has one key, whether the control key is held down or not, and the keys
/// that have no command do nothing.
pub proof fn commands_have_one_key(key: Key, control: bool)
    ensures
        command_of(key, control) == Command::ShiftUsageRenderer <==> key == Key::F(2),
        command_of(key, control) == Command::FlipShowBytes <==> key == Key::F(3),
        command_of(key, control) == Command::FlipFullCmd <==> key == Key::F(4),
        command_of(key, control) == Command::SelectPrevious <==> key == Key::Up,
        command_of(key, control) == Command::SelectNext <==> key == Key::Down,
{
}

/// Each command changes one thing, and only that: how the usage is shown, how sizes are told, which
/// text of the command is shown, or which row is selected.
pub proof fn commands_change_one_thing(t: TopRenderer, command: Command)
    ensures
        ({
            let after = t.commanded(command);
            let table = t.table_renderer;
            &&& after.usage_renderer != t.usage_renderer <==> command == Command::ShiftUsageRenderer
            &&& after.table_renderer.show_bytes != table.show_bytes <==> command
                == Command::FlipShowBytes
            &&& after.table_renderer.full_cmd != table.full_cmd <==> command == Command::FlipFullCmd
            &&& command != Command::SelectPrevious && command != Command::SelectNext
                ==> after.table_renderer.selected == table.selected
            &&& command == Command::SelectNext ==> (table.selected is None
                ==> after.table_renderer.selected == Some(0usize)) && (table.selected is Some
                && table.selected->0 < usize::MAX ==> after.table_renderer.selected == Some(
                (table.selected->0 + 1) as usize,
            ))
            &&& command == Command::SelectNext && table.selected == Some(usize::MAX)
                ==> after.table_renderer.selected == table.selected
            &&& command == Command::SelectPrevious && table.selected is Some
                ==> after.table_renderer.selected == Some(
                if table.selected->0 > 0 {
                    (table.selected->0 - 1) as usize
                } else {
                    0
                },
            )
            &&& command == Command::SelectPrevious && table.selected is None
                ==> after.table_renderer.selected == Some(usize::MAX)
        }),
{
}

/// The streams can be drawn exactly if the memory of each is in range and, for the bars, their
/// usages sum up to no more than 100 %; for the chart the usages do not matter.
pub proof fn drawable_streams_are_in_range(t: TopRenderer)
    ensures
        t.drawable() <==> {
            &&& forall|s: V4L2Stream| #[trigger]
                t.infos@.contains_key(s) ==> memory_of(t.infos@[s].mem_usage@) <= usize::MAX
            &&& t.usage_renderer == UsageRendererType::PerPid ==> total_of(
                t.infos@,
                t.infos.keys(),
            ) <= 100
            &&& t.usage_renderer == UsageRendererType::Chart ==> t.usage_history.tick < u64::MAX
        },
{
}

} // verus!
