//! The table of streams and the list of a stream's buffers.

use ratatui::widgets::TableState;
use vstd::prelude::*;

use crate::codec::StreamInfo;
use crate::format::{bytes_text, format_bytes};
use crate::stream::{StreamMap, V4L2Stream};
use crate::text::{append_chars, decimal, decimal_chars, from_chars, to_chars};
use crate::v4l2_mem::DMABuffer;
use crate::v4l2_stats::{Fields, V4l2FdInfo};

verus! {

/// The row after the selected one; the first row if none is selected.
pub open spec fn row_after(selected: Option<usize>) -> usize {
    match selected {
        Some(i) => if i < usize::MAX {
            (i + 1) as usize
        } else {
            i
        },
        None => 0,
    }
}

/// The row before the selected one; the last possible row if none is selected.
pub open spec fn row_before(selected: Option<usize>) -> usize {
    match selected {
        Some(i) => if i > 0 {
            (i - 1) as usize
        } else {
            0
        },
        None => usize::MAX,
    }
}

/// `TableState::select_next`: selects the next row, and the first one if none is selected. How many
/// rows there are does not matter to it.
#[verifier::external_body]
fn select_row_after(selected: Option<usize>) -> (r: Option<usize>)
    ensures
        r == Some(row_after(selected)),
{
    let mut state = TableState::default().with_selected(selected);
    state.select_next();
    state.selected()
}

/// `TableState::select_previous`: selects the previous row, and the last possible one if none is
/// selected. How many rows there are does not matter to it.
#[verifier::external_body]
fn select_row_before(selected: Option<usize>) -> (r: Option<usize>)
    ensures
        r == Some(row_before(selected)),
{
    let mut state = TableState::default().with_selected(selected);
    state.select_previous();
    state.selected()
}

/// Down and up again leads back, and so does up and down from any row but the first.
pub proof fn selection_leads_back(i: usize)
    ensures
        i < usize::MAX ==> row_before(Some(row_after(Some(i)))) == i,
        i > 0 ==> row_after(Some(row_before(Some(i)))) == i,
{
}

/// The memory of some buffers.
pub open spec fn memory_of(buffers: Seq<DMABuffer>) -> nat
    decreases buffers.len(),
{
    if buffers.len() == 0 {
        0
    } else {
        memory_of(buffers.drop_last()) + buffers.last().size as nat
    }
}

proof fn lemma_memory_grows(buffers: Seq<DMABuffer>, n: int)
    requires
        0 <= n <= buffers.len(),
    ensures
        memory_of(buffers.take(n)) <= memory_of(buffers),
    decreases buffers.len(),
{
    if n == buffers.len() {
        assert(buffers.take(n) =~= buffers);
    } else {
        assert(buffers.drop_last().take(n) =~= buffers.take(n));
        lemma_memory_grows(buffers.drop_last(), n);
    }
}

/// The memory of some buffers, if it fits a `usize`.
pub fn total_memory(buffers: &Vec<DMABuffer>) -> (r: Option<usize>)
    ensures
        match r {
            Some(n) => n == memory_of(buffers@),
            None => memory_of(buffers@) > usize::MAX,
        },
{
    let mut total: usize = 0;
    let mut i: usize = 0;
    while i < buffers.len()
        invariant
            i <= buffers.len(),
            total == memory_of(buffers@.take(i as int)),
        decreases buffers.len() - i,
    {
        assert(buffers@.take(i + 1).drop_last() =~= buffers@.take(i as int));
        let size: usize = buffers[i].size;
        if size > usize::MAX - total {
            proof {
                lemma_memory_grows(buffers@, i + 1);
            }
            return None;
        }
        total += size;
        i += 1;
    }
    assert(buffers@.take(buffers.len() as int) =~= buffers@);
    Some(total)
}

/// The memory of every stream fits a `usize`.
pub open spec fn memory_fits(infos: Map<V4L2Stream, StreamInfo>) -> bool {
    forall|s: V4L2Stream| #[trigger]
        infos.contains_key(s) ==> memory_of(infos[s].mem_usage@) <= usize::MAX
}

/// Whether the memory of every stream fits a `usize`.
pub fn check_memory(infos: &StreamMap<StreamInfo>) -> (r: bool)
    ensures
        r == memory_fits(infos@),
{
    let ghost keys = infos.keys();
    let mut i: usize = 0;
    while i < infos.len()
        invariant
            i <= keys.len(),
            keys == infos.keys(),
            forall|j: int|
                0 <= j < i ==> memory_of(infos@[#[trigger] keys[j]].mem_usage@) <= usize::MAX,
        decreases keys.len() - i,
    {
        if total_memory(&infos.value_at(i).mem_usage).is_none() {
            assert(infos@.contains_key(keys[i as int]));
            return false;
        }
        i += 1;
    }
    proof {
        use_type_invariant(infos);
        infos.lemma_keys();
        assert forall|s: V4L2Stream| #[trigger] infos@.contains_key(s) implies memory_of(
            infos@[s].mem_usage@,
        ) <= usize::MAX by {
            assert(keys.contains(s));
            let j = choose|j: int| 0 <= j < keys.len() && keys[j] == s;
            assert(keys[j] == s);
        }
    }
    true
}

/// A field's text, or that it is unknown.
pub open spec fn field_or_unknown(fields: Fields, name: Seq<char>) -> Seq<char> {
    if fields.contains_key(name) {
        fields[name]
    } else {
        "unknown"@
    }
}

/// A field's text, or that it is unknown.
fn field_text(info: &V4l2FdInfo, name: &str) -> (r: String)
    ensures
        r@ == field_or_unknown(info@.fields, name@),
{
    match info.fields.get(name) {
        Some(text) => text.clone(),
        None => "unknown".to_owned(),
    }
}

/// The cells of a stream's row: the driver, the process, the descriptor, the clock rate, the memory
/// and the command.
pub open spec fn row_of(
    stream: V4L2Stream,
    info: StreamInfo,
    show_bytes: bool,
    full_cmd: bool,
) -> Seq<Seq<char>> {
    seq![
        field_or_unknown(info.v4l2_info@.fields, "media-driver"@),
        decimal(stream.pid as nat),
        decimal(stream.fd as nat),
        field_or_unknown(info.v4l2_info@.fields, "media-curfreq-decoder"@),
        bytes_text(memory_of(info.mem_usage@) as u64, show_bytes),
        if full_cmd {
            info.cmdline@
        } else {
            info.comm@
        },
    ]
}

/// The texts of cells.
pub open spec fn texts(cells: Seq<String>) -> Seq<Seq<char>> {
    cells.map_values(|c: String| c@)
}

/// The table as it is drawn.
pub struct TableView {
    pub columns: Vec<String>,
    /// The width of each column, in percent.
    pub widths: Vec<u16>,
    pub rows: Vec<Vec<String>>,
    pub footer: String,
}

/// The table of streams.
pub struct StreamTableRenderer {
    /// The selected row.
    pub selected: Option<usize>,
    pub show_bytes: bool,
    pub full_cmd: bool,
    /// The streams of the rows.
    pub keys: Vec<V4L2Stream>,
}

/// The table has a row for each stream, by process and descriptor, and says how many there are.
pub open spec fn shows_table(
    view: TableView,
    table: StreamTableRenderer,
    infos: StreamMap<StreamInfo>,
) -> bool {
    &&& texts(view.columns@) == seq![
        "Driver"@,
        "PID"@,
        "FD"@,
        "Clock rate"@,
        "Total Memory"@,
        "Command"@,
    ]
    &&& view.widths@ == seq![12u16, 12, 12, 12, 12, 40]
    &&& view.rows.len() == infos.keys().len()
    &&& forall|i: int|
        0 <= i < view.rows.len() ==> texts((#[trigger] view.rows@[i])@) == row_of(
            infos.keys()[i],
            infos@[infos.keys()[i]],
            table.show_bytes,
            table.full_cmd,
        )
    &&& view.footer@ == "Total V4L2 FDs: "@ + decimal(infos.keys().len())
}

/// Every stream has a row, and there are no other rows.
pub proof fn every_stream_has_a_row(
    view: TableView,
    table: StreamTableRenderer,
    infos: StreamMap<StreamInfo>,
    stream: V4L2Stream,
)
    requires
        infos.wf(),
        shows_table(view, table, infos),
        infos@.contains_key(stream),
    ensures
        exists|i: int|
            0 <= i < view.rows.len() && texts((#[trigger] view.rows@[i])@) == row_of(
                stream,
                infos@[stream],
                table.show_bytes,
                table.full_cmd,
            ),
        view.rows.len() == infos@.dom().len(),
{
    infos.lemma_keys();
    assert(infos.keys().contains(stream));
    let i = choose|i: int| 0 <= i < infos.keys().len() && infos.keys()[i] == stream;
    assert(texts(view.rows@[i]@) == row_of(
        stream,
        infos@[stream],
        table.show_bytes,
        table.full_cmd,
    ));
}

/// The list has a row for each buffer, with its label and its size.
pub open spec fn shows_buffers(
    rows: Seq<(String, String)>,
    buffers: Seq<DMABuffer>,
    show_bytes: bool,
) -> bool {
    &&& rows.len() == buffers.len()
    &&& forall|i: int|
        0 <= i < rows.len() ==> {
            &&& (#[trigger] rows[i]).0@ == buffers[i].label@
            &&& rows[i].1@ == bytes_text(buffers[i].size as u64, show_bytes)
        }
}

/// Every buffer has its row, in order, with its whole label and its own size.
pub proof fn every_buffer_has_its_row(
    rows: Seq<(String, String)>,
    buffers: Seq<DMABuffer>,
    show_bytes: bool,
    i: int,
)
    requires
        shows_buffers(rows, buffers, show_bytes),
    ensures
        rows.len() == buffers.len(),
        0 <= i < buffers.len() ==> rows[i].0@ == buffers[i].label@,
        0 <= i < buffers.len() ==> rows[i].1@ == bytes_text(buffers[i].size as u64, show_bytes),
{
}

impl StreamTableRenderer {
    /// A table without rows, whose first row is selected.
    pub fn new() -> (r: Self)
        ensures
            r.selected == Some(0usize),
            !r.show_bytes,
            !r.full_cmd,
            r.keys@ == Seq::<V4L2Stream>::empty(),
    {
        StreamTableRenderer {
            selected: Some(0),
            show_bytes: false,
            full_cmd: false,
            keys: Vec::new(),
        }
    }

    /// What is drawn for the given streams: a row for each, by process and descriptor.
    pub fn render(&mut self, infos: &StreamMap<StreamInfo>) -> (r: TableView)
        requires
            memory_fits(infos@),
        ensures
            final(self).keys@ == infos.keys(),
            final(self).selected == old(self).selected,
            final(self).show_bytes == old(self).show_bytes,
            final(self).full_cmd == old(self).full_cmd,
            shows_table(r, *old(self), *infos),
    {
        let mut columns: Vec<String> = Vec::new();
        columns.push("Driver".to_owned());
        columns.push("PID".to_owned());
        columns.push("FD".to_owned());
        columns.push("Clock rate".to_owned());
        columns.push("Total Memory".to_owned());
        columns.push("Command".to_owned());
        assert(texts(columns@) =~= seq![
            "Driver"@,
            "PID"@,
            "FD"@,
            "Clock rate"@,
            "Total Memory"@,
            "Command"@,
        ]);

        let mut widths: Vec<u16> = Vec::new();
        let parts: u16 = (columns.len() - 1) as u16;
        assert(parts == 5);
        let narrow: u16 = 60 / parts;
        assert(narrow == 12) by (nonlinear_arith)
            requires
                narrow == 60u16 / parts,
                parts == 5,
        ;
        while widths.len() < columns.len() - 1
            invariant
                columns.len() == 6,
                narrow == 12,
                widths.len() <= 5,
                forall|i: int| 0 <= i < widths.len() ==> widths@[i] == 12,
            decreases 5 - widths.len(),
        {
            widths.push(narrow);
        }
        widths.push(40);
        assert(widths@ =~= seq![12u16, 12, 12, 12, 12, 40]);

        let ghost streams = infos.keys();
        let mut keys: Vec<V4L2Stream> = Vec::new();
        let mut rows: Vec<Vec<String>> = Vec::new();
        let mut i: usize = 0;
        while i < infos.len()
            invariant
                i <= streams.len(),
                streams == infos.keys(),
                memory_fits(infos@),
                keys@ == streams.take(i as int),
                rows.len() == i,
                forall|j: int|
                    0 <= j < i ==> texts((#[trigger] rows@[j])@) == row_of(
                        streams[j],
                        infos@[streams[j]],
                        self.show_bytes,
                        self.full_cmd,
                    ),
            decreases streams.len() - i,
        {
            let stream: V4L2Stream = infos.key_at(i);
            let row: Vec<String> = self.row(stream, infos.value_at(i));
            keys.push(stream);
            rows.push(row);
            assert(streams.take(i + 1) =~= streams.take(i as int).push(stream));
            i += 1;
        }
        assert(streams.take(streams.len() as int) =~= streams);
        self.keys = keys;

        let mut footer: Vec<char> = to_chars("Total V4L2 FDs: ");
        append_chars(&mut footer, &decimal_chars(infos.len() as u64));
        TableView { columns, widths, rows, footer: from_chars(&footer) }
    }

    /// The cells of a stream's row.
    fn row(&self, stream: V4L2Stream, info: &StreamInfo) -> (r: Vec<String>)
        requires
            memory_of(info.mem_usage@) <= usize::MAX,
        ensures
            texts(r@) == row_of(stream, *info, self.show_bytes, self.full_cmd),
    {
        let memory: usize = match total_memory(&info.mem_usage) {
            Some(n) => n,
            None => 0,
        };
        let mut r: Vec<String> = Vec::new();
        r.push(field_text(&info.v4l2_info, "media-driver"));
        r.push(from_chars(&decimal_chars(stream.pid as u64)));
        r.push(from_chars(&decimal_chars(stream.fd as u64)));
        r.push(field_text(&info.v4l2_info, "media-curfreq-decoder"));
        r.push(format_bytes(memory as u64, self.show_bytes));
        r.push(
            if self.full_cmd {
                info.cmdline.clone()
            } else {
                info.comm.clone()
            },
        );
        assert(texts(r@) =~= row_of(stream, *info, self.show_bytes, self.full_cmd));
        r
    }

    /// The stream of the selected row, if there is such a row.
    pub open spec fn stream_selected(self) -> Option<V4L2Stream> {
        match self.selected {
            Some(i) => if i < self.keys.len() {
                Some(self.keys@[i as int])
            } else {
                None
            },
            None => None,
        }
    }

    /// The stream of the selected row.
    pub fn selected_stream(&self) -> (r: Option<V4L2Stream>)
        ensures
            r == self.stream_selected(),
    {
        match self.selected {
            Some(i) => if i < self.keys.len() {
                Some(self.keys[i])
            } else {
                None
            },
            None => None,
        }
    }

    /// What is drawn of the buffers of the selected stream: the label and the size of each.
    pub fn render_mem_details(&self, infos: &StreamMap<StreamInfo>) -> (r: Vec<(String, String)>)
        requires
            self.stream_selected() matches Some(s) ==> infos@.contains_key(s),
        ensures
            match self.stream_selected() {
                Some(s) => shows_buffers(r@, infos@[s].mem_usage@, self.show_bytes),
                None => r.len() == 0,
            },
    {
        let mut r: Vec<(String, String)> = Vec::new();
        if let Some(stream) = self.selected_stream() {
            if let Some(info) = infos.get(&stream) {
                let buffers: &Vec<DMABuffer> = &info.mem_usage;
                let mut i: usize = 0;
                while i < buffers.len()
                    invariant
                        i <= buffers.len(),
                        r.len() == i,
                        forall|j: int|
                            0 <= j < i ==> {
                                let b = buffers@[j];
                                &&& (#[trigger] r@[j]).0@ == b.label@
                                &&& r@[j].1@ == bytes_text(b.size as u64, self.show_bytes)
                            },
                    decreases buffers.len() - i,
                {
                    let label: String = buffers[i].label.clone();
                    r.push((label, format_bytes(buffers[i].size as u64, self.show_bytes)));
                    i += 1;
                }
            }
        }
        r
    }

    /// Selects the row above.
    pub fn select_previous(&mut self)
        ensures
            *final(self) == (StreamTableRenderer {
                selected: Some(row_before(old(self).selected)),
                ..*old(self)
            }),
    {
        self.selected = select_row_before(self.selected);
    }

    /// Selects the row below.
    pub fn select_next(&mut self)
        ensures
            *final(self) == (StreamTableRenderer {
                selected: Some(row_after(old(self).selected)),
                ..*old(self)
            }),
    {
        self.selected = select_row_after(self.selected);
    }

    /// Selects a row, or none.
    pub fn select(&mut self, selected: Option<usize>)
        ensures
            *final(self) == (StreamTableRenderer { selected, ..*old(self) }),
    {
        self.selected = selected;
    }

    /// Goes over from compact sizes to full ones, or back.
    pub fn show_bytes_flip(&mut self)
        ensures
            *final(self) == (StreamTableRenderer {
                show_bytes: !old(self).show_bytes,
                ..*old(self)
            }),
    {
        self.show_bytes = !self.show_bytes;
    }
}

/// Down goes to the next row and up to the one before, as far as rows can go; from no row down goes
/// to the first and up to the last.
pub proof fn selection_moves_by_one(i: usize)
    ensures
        row_after(Some(i)) == i + 1 || (i == usize::MAX && row_after(Some(i)) == i),
        row_before(Some(i)) == i - 1 || (i == 0 && row_before(Some(i)) == 0),
        row_after(None) == 0,
        row_before(None) == usize::MAX,
{
}

/// The memory of buffers adds up: that of two lists to the sum of both, that of one buffer to its
/// size. The label does not matter.
pub proof fn memory_adds_up(a: Seq<DMABuffer>, b: Seq<DMABuffer>, buffer: DMABuffer)
    ensures
        memory_of(a + b) == memory_of(a) + memory_of(b),
        memory_of(seq![buffer]) == buffer.size,
        memory_of(Seq::empty()) == 0,
    decreases b.len(),
{
    assert(seq![buffer].drop_last() =~= Seq::empty());
    assert(memory_of(Seq::empty()) == 0);
    if b.len() == 0 {
        assert(a + b =~= a);
    } else {
        memory_adds_up(a, b.drop_last(), buffer);
        assert((a + b).drop_last() =~= a + b.drop_last());
    }
}

/// What stands in the row of a stream: the driver and the clock rate as the fdinfo states them, or
/// that they are unknown, the process and the descriptor in full, the memory of all its buffers,
/// and the command or, if asked for, the whole command line, uncut.
pub proof fn rows_tell_of_their_stream(
    view: TableView,
    table: StreamTableRenderer,
    infos: StreamMap<StreamInfo>,
    i: int,
)
    requires
        shows_table(view, table, infos),
        0 <= i < view.rows.len(),
    ensures
        ({
            let stream = infos.keys()[i];
            let info = infos@[stream];
            let fields = info.v4l2_info@.fields;
            let row = view.rows@[i]@;
            &&& row.len() == 6
            &&& row[0]@ == if fields.contains_key("media-driver"@) {
                fields["media-driver"@]
            } else {
                "unknown"@
            }
            &&& row[1]@ == decimal(stream.pid as nat)
            &&& row[2]@ == decimal(stream.fd as nat)
            &&& row[3]@ == if fields.contains_key("media-curfreq-decoder"@) {
                fields["media-curfreq-decoder"@]
            } else {
                "unknown"@
            }
            &&& row[4]@ == bytes_text(memory_of(info.mem_usage@) as u64, table.show_bytes)
            &&& table.full_cmd ==> row[5]@ == info.cmdline@
            &&& !table.full_cmd ==> row[5]@ == info.comm@
        }),
        view.rows.len() == infos.keys().len(),
        view.columns.len() == 6,
        view.widths.len() == 6,
        view.footer@ == "Total V4L2 FDs: "@ + decimal(infos.keys().len()),
{
    let row = view.rows@[i]@;
    let cells = row_of(
        infos.keys()[i],
        infos@[infos.keys()[i]],
        table.show_bytes,
        table.full_cmd,
    );
    assert(texts(row) == cells);
    assert(texts(row).len() == row.len());
    assert(texts(row)[0] == row[0]@ && texts(row)[1] == row[1]@ && texts(row)[2] == row[2]@);
    assert(texts(row)[3] == row[3]@ && texts(row)[4] == row[4]@ && texts(row)[5] == row[5]@);
    assert(texts(view.columns@).len() == view.columns.len());
}

/// The selected stream is that of the selected row; there is none if no row is selected or if the
/// selection lies behind the last row.
pub proof fn selected_rows_stand_for_their_stream(table: StreamTableRenderer, i: usize)
    ensures
        table.selected is None ==> table.stream_selected() is None,
        table.selected == Some(i) && i < table.keys.len() ==> table.stream_selected() == Some(
            table.keys@[i as int],
        ),
        table.selected == Some(i) && i >= table.keys.len() ==> table.stream_selected() is None,
{
}

} // verus!
