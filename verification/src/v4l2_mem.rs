//! The buffers that V4L2 drivers list in their debugfs `mem` files.

use regex::Regex;
use vstd::prelude::*;
use vstd::utf8::is_ascii_chars;

use crate::stream::{StreamMap, V4L2Stream};
use crate::text::{
    decimal, from_chars, index_of, is_digit, line_feeds_part_lines, lines_of, number_round_trip,
    numbers_read_as_themselves, parse_usize, parsed_number, split_lines, to_chars, views,
    without_cr, zeros, NumberError,
};

verus! {

/// A buffer of a stream.
#[derive(Debug, Clone)]
pub struct DMABuffer {
    pub label: String,
    pub size: usize,
}

impl View for DMABuffer {
    type V = (Seq<char>, usize);

    open spec fn view(&self) -> (Seq<char>, usize) {
        (self.label@, self.size)
    }
}

/// The contents of a list of buffers.
pub open spec fn buffer_views(buffers: Seq<DMABuffer>) -> Seq<(Seq<char>, usize)> {
    buffers.map_values(|b: DMABuffer| b@)
}

/// The buffers of each stream.
pub type Usage = Map<V4L2Stream, Seq<(Seq<char>, usize)>>;

/// The buffers that a map holds.
pub open spec fn usage_view(mem: Map<V4L2Stream, Vec<DMABuffer>>) -> Usage {
    mem.map_values(|v: Vec<DMABuffer>| buffer_views(v@))
}

/// The texts in a line of a `mem` file: the descriptor, the process, the size, the label.
pub type LineTexts = (Seq<char>, Seq<char>, Seq<char>, Seq<char>);

/// The texts in a line of a `mem` file.
pub struct MemLine {
    pub fd: String,
    pub pid: String,
    pub size: String,
    pub label: String,
}

impl View for MemLine {
    type V = LineTexts;

    open spec fn view(&self) -> LineTexts {
        (self.fd@, self.pid@, self.size@, self.label@)
    }
}

/// The texts of a line, if it has any.
pub open spec fn line_view(line: Option<MemLine>) -> Option<LineTexts> {
    match line {
        Some(l) => Some(l@),
        None => None,
    }
}

/// The bounds of the parts of a line that describes a buffer: the creator, the descriptor, the
/// process, the size, the label.
pub struct LineBounds {
    pub creator: (int, int),
    pub fd: (int, int),
    pub pid: (int, int),
    pub size: (int, int),
    pub label: (int, int),
}

/// One or more spaces fill a gap.
pub open spec fn is_gap(line: Seq<char>, from: int, to: int) -> bool {
    0 <= from < to <= line.len() && forall|i: int| from <= i < to ==> line[i] == ' '
}

/// One or more digits fill a range.
pub open spec fn is_number(line: Seq<char>, range: (int, int)) -> bool {
    0 <= range.0 < range.1 <= line.len() && forall|i: int|
        range.0 <= i < range.1 ==> is_digit(line[i])
}

/// The line holds, from the start of the creator on: a word, three numbers and a label, with spaces
/// between them. The label starts with anything but a space and goes on to the end of the line.
pub open spec fn describes_buffer(line: Seq<char>, b: LineBounds) -> bool {
    &&& 0 <= b.creator.0 < b.creator.1 <= line.len()
    &&& forall|i: int| b.creator.0 <= i < b.creator.1 ==> line[i] != ' '
    &&& is_gap(line, b.creator.1, b.fd.0)
    &&& is_number(line, b.fd)
    &&& is_gap(line, b.fd.1, b.pid.0)
    &&& is_number(line, b.pid)
    &&& is_gap(line, b.pid.1, b.size.0)
    &&& is_number(line, b.size)
    &&& is_gap(line, b.size.1, b.label.0)
    &&& b.label.0 < b.label.1 <= line.len()
    &&& line[b.label.0] != ' '
    &&& forall|i: int| b.label.0 < i < b.label.1 ==> line[i] != '\n'
    &&& b.label.1 < line.len() ==> line[b.label.1] == '\n'
}

/// The first description of a buffer in a line.
pub open spec fn is_first_description(line: Seq<char>, b: LineBounds) -> bool {
    &&& describes_buffer(line, b)
    &&& forall|other: LineBounds| #[trigger]
        describes_buffer(line, other) ==> b.creator.0 <= other.creator.0
}

/// The texts of the first description of a buffer in a line.
pub open spec fn described_buffer(line: Seq<char>) -> Option<LineTexts> {
    if exists|b: LineBounds| is_first_description(line, b) {
        let b = choose|b: LineBounds| is_first_description(line, b);
        Some(
            (
                line.subrange(b.fd.0, b.fd.1),
                line.subrange(b.pid.0, b.pid.1),
                line.subrange(b.size.0, b.size.1),
                line.subrange(b.label.0, b.label.1),
            ),
        )
    } else {
        None
    }
}

/// The pattern of a line of a `mem` file.
pub const LINE_PATTERN: &'static str =
    r"(?<creator>[^ ]+) +(?<fd>\d+) +(?<pid>\d+) +(?<size>\d+) +(?<label>[^ ].*)";

/// What the groups `fd`, `pid`, `size` and `label` of a pattern capture in a line.
pub uninterp spec fn captured_texts(pattern: Seq<char>, line: Seq<char>) -> Option<
    (Seq<char>, Seq<char>, Seq<char>, Seq<char>),
>;

/// `Regex::captures`, with the pattern of a `mem` line: a function of the pattern and the line. On
/// an ASCII line it finds the leftmost place where the pattern matches, with a label that is as
/// long as possible. On other lines more characters count as digits (the decimal digits of every
/// script), and nothing is said here but that pattern and line decide.
#[verifier::external_body]
fn capture_line(pattern: &str, line: &str) -> (r: Option<MemLine>)
    requires
        pattern@
            == r"(?<creator>[^ ]+) +(?<fd>\d+) +(?<pid>\d+) +(?<size>\d+) +(?<label>[^ ].*)"@,
    ensures
        line_view(r) == captured_texts(pattern@, line@),
        is_ascii_chars(line@) ==> line_view(r) == described_buffer(line@),
{
    let caps = Regex::new(pattern).expect("the pattern is well-formed").captures(line)?;
    Some(
        MemLine {
            fd: caps["fd"].to_string(),
            pid: caps["pid"].to_string(),
            size: caps["size"].to_string(),
            label: caps["label"].to_string(),
        },
    )
}

/// A way to read a line.
pub type LineReader = spec_fn(Seq<char>) -> Option<LineTexts>;

/// The line pattern as a reader.
pub open spec fn by_pattern() -> LineReader {
    |line: Seq<char>| captured_texts(LINE_PATTERN@, line)
}

/// The grammar of ASCII lines as a reader.
pub open spec fn by_grammar() -> LineReader {
    |line: Seq<char>| described_buffer(line)
}

/// Adds the buffer that a line describes to those of its stream. A text that is no number stops it:
/// with that of the process or of the descriptor nothing has happened yet, with that of the size
/// the stream already has a place, if need be with no buffer in it.
pub open spec fn line_added(mem: Usage, line: LineTexts) -> (Usage, Option<NumberError>) {
    match parsed_number(line.1, usize::MAX as u64) {
        Err(e) => (mem, Some(e)),
        Ok(pid) => match parsed_number(line.0, usize::MAX as u64) {
            Err(e) => (mem, Some(e)),
            Ok(fd) => {
                let stream = V4L2Stream { pid: pid as usize, fd: fd as usize };
                let buffers = if mem.contains_key(stream) {
                    mem[stream]
                } else {
                    Seq::empty()
                };
                match parsed_number(line.2, usize::MAX as u64) {
                    Err(e) => (mem.insert(stream, buffers), Some(e)),
                    Ok(size) => (
                        mem.insert(stream, buffers.push((line.3, size as usize))),
                        None,
                    ),
                }
            },
        },
    }
}

/// Adds what the lines describe, from the first line on; the first error stops it.
pub open spec fn lines_added(mem: Usage, lines: Seq<Option<LineTexts>>) -> (
    Usage,
    Option<NumberError>,
)
    decreases lines.len(),
{
    if lines.len() == 0 {
        (mem, None)
    } else {
        let (m, e) = lines_added(mem, lines.drop_last());
        if e is Some {
            (m, e)
        } else {
            match lines.last() {
                Some(line) => line_added(m, line),
                None => (m, None),
            }
        }
    }
}

/// What stops the first lines stops them all.
proof fn lemma_error_stays(mem: Usage, lines: Seq<Option<LineTexts>>, n: int)
    requires
        0 <= n <= lines.len(),
        lines_added(mem, lines.take(n)).1 is Some,
    ensures
        lines_added(mem, lines) == lines_added(mem, lines.take(n)),
    decreases lines.len(),
{
    if n == lines.len() {
        assert(lines.take(n) =~= lines);
    } else {
        assert(lines.drop_last().take(n) =~= lines.take(n));
        lemma_error_stays(mem, lines.drop_last(), n);
    }
}

/// Adds the buffers that lines describe to those of their streams.
pub fn add_lines(lines: &Vec<Option<MemLine>>, mem: &mut StreamMap<Vec<DMABuffer>>) -> (r: Result<
    (),
    NumberError,
>)
    ensures
        ({
            let (added, error) = lines_added(usage_view(old(mem)@), line_views(lines@));
            &&& usage_view(final(mem)@) == added
            &&& r == match error {
                Some(e) => Err(e),
                None => Ok(()),
            }
        }),
{
    let ghost start = usage_view(mem@);
    let ghost all = line_views(lines@);
    let mut i: usize = 0;
    while i < lines.len()
        invariant
            i <= lines.len(),
            start == usage_view(old(mem)@),
            all == line_views(lines@),
            lines_added(start, all.take(i as int)) == (usage_view(mem@), None::<NumberError>),
        decreases lines.len() - i,
    {
        assert(all.take(i + 1).drop_last() =~= all.take(i as int));
        assert(all.take(i + 1).last() == line_view(lines@[i as int]));
        if let Some(line) = &lines[i] {
            match add_line(line, mem) {
                Ok(()) => {},
                Err(e) => {
                    proof {
                        assert(lines_added(start, all.take(i + 1)) == (usage_view(mem@), Some(e)));
                        lemma_error_stays(start, all, i + 1);
                    }
                    return Err(e);
                },
            }
        }
        i += 1;
    }
    assert(all.take(all.len() as int) =~= all);
    Ok(())
}

/// The texts of lines.
pub open spec fn line_views(lines: Seq<Option<MemLine>>) -> Seq<Option<LineTexts>> {
    lines.map_values(|l: Option<MemLine>| line_view(l))
}

/// Adds the buffer that one line describes to those of its stream.
pub fn add_line(line: &MemLine, mem: &mut StreamMap<Vec<DMABuffer>>) -> (r: Result<(), NumberError>)
    ensures
        ({
            let (added, error) = line_added(usage_view(old(mem)@), line@);
            &&& usage_view(final(mem)@) == added
            &&& r == match error {
                Some(e) => Err(e),
                None => Ok(()),
            }
        }),
{
    let pid: usize = parse_usize(&to_chars(line.pid.as_str()))?;
    let fd: usize = parse_usize(&to_chars(line.fd.as_str()))?;
    let stream = V4L2Stream::new(pid, fd);
    let ghost before = usage_view(mem@);
    let mut buffers: Vec<DMABuffer> = match mem.remove(&stream) {
        Some(b) => b,
        None => Vec::new(),
    };
    assert(before.contains_key(stream) ==> before[stream] == buffer_views(buffers@));
    assert(!before.contains_key(stream) ==> buffer_views(buffers@) =~= Seq::empty());
    let ghost had = buffer_views(buffers@);
    match parse_usize(&to_chars(line.size.as_str())) {
        Ok(size) => {
            let b = DMABuffer { label: line.label.clone(), size };
            buffers.push(b);
            assert(buffer_views(buffers@) =~= had.push(b@));
            mem.insert(stream, buffers);
            assert(usage_view(mem@) =~= before.insert(stream, had.push(b@)));
            Ok(())
        },
        Err(e) => {
            mem.insert(stream, buffers);
            assert(usage_view(mem@) =~= before.insert(stream, had));
            Err(e)
        },
    }
}

/// What a reader makes of the lines of a text.
pub open spec fn text_read(text: Seq<char>, reader: LineReader) -> Seq<Option<LineTexts>> {
    lines_of(text).map_values(reader)
}

/// The lines of an ASCII text are ASCII.
proof fn lemma_lines_are_ascii(s: Seq<char>)
    requires
        is_ascii_chars(s),
    ensures
        forall|i: int| 0 <= i < lines_of(s).len() ==> is_ascii_chars(#[trigger] lines_of(s)[i]),
    decreases s.len(),
{
    let n = index_of(s, '\n') as int;
    if s.len() > 0 && n < s.len() {
        let first = without_cr(s.take(n));
        assert(is_ascii_chars(first)) by {
            assert(forall|i: int| 0 <= i < first.len() ==> #[trigger] first[i] == s[i]);
        }
        let rest = s.skip(n + 1);
        assert(is_ascii_chars(rest)) by {
            assert(forall|i: int| 0 <= i < rest.len() ==> #[trigger] rest[i] == s[n + 1 + i]);
        }
        lemma_lines_are_ascii(rest);
        assert(lines_of(s) == seq![first] + lines_of(rest));
        assert forall|i: int| 0 <= i < lines_of(s).len() implies is_ascii_chars(
            #[trigger] lines_of(s)[i],
        ) by {
            if i > 0 {
                assert(lines_of(s)[i] == lines_of(rest)[i - 1]);
            }
        }
    }
}

/// The lines of a text, each by the line pattern.
fn capture_lines(text: &str) -> (r: Vec<Option<MemLine>>)
    ensures
        line_views(r@) == text_read(text@, by_pattern()),
        is_ascii_chars(text@) ==> line_views(r@) == text_read(text@, by_grammar()),
{
    let lines: Vec<Vec<char>> = split_lines(&to_chars(text));
    let ghost all = lines_of(text@);
    let mut r: Vec<Option<MemLine>> = Vec::new();
    let mut i: usize = 0;
    while i < lines.len()
        invariant
            i <= lines.len(),
            all == views(lines@),
            r.len() == i,
            forall|j: int|
                0 <= j < i ==> line_view(#[trigger] r@[j]) == captured_texts(LINE_PATTERN@, all[j]),
            forall|j: int|
                0 <= j < i && is_ascii_chars(all[j]) ==> line_view(#[trigger] r@[j])
                    == described_buffer(all[j]),
        decreases lines.len() - i,
    {
        let line: String = from_chars(&lines[i]);
        assert(line@ == all[i as int]);
        r.push(capture_line(LINE_PATTERN, line.as_str()));
        i += 1;
    }
    assert(line_views(r@) =~= text_read(text@, by_pattern()));
    proof {
        if is_ascii_chars(text@) {
            lemma_lines_are_ascii(text@);
            assert(line_views(r@) =~= text_read(text@, by_grammar()));
        }
    }
    r
}

/// The buffers that a `mem` file lists are added to those of their streams.
pub fn parse_mem_file(text: &str, mem: &mut StreamMap<Vec<DMABuffer>>) -> (r: Result<
    (),
    NumberError,
>)
    ensures
        ({
            let (added, error) = lines_added(usage_view(old(mem)@), text_read(text@, by_pattern()));
            &&& usage_view(final(mem)@) == added
            &&& r == match error {
                Some(e) => Err(e),
                None => Ok(()),
            }
        }),
        is_ascii_chars(text@) ==> ({
            let (added, error) = lines_added(usage_view(old(mem)@), text_read(text@, by_grammar()));
            &&& usage_view(final(mem)@) == added
            &&& r == match error {
                Some(e) => Err(e),
                None => Ok(()),
            }
        }),
{
    let lines: Vec<Option<MemLine>> = capture_lines(text);
    add_lines(&lines, mem)
}

/// Why the memory usage could not be had.
#[derive(Clone, Copy, Debug, PartialEq, Eq, Structural)]
pub enum MemError {
    /// A file, or its directory, could not be read.
    Unreadable,
    /// A file holds a number that cannot be read.
    Number(NumberError),
}

/// The buffers that files list, from the first file on; a file that could not be read is missing.
/// The first error is what comes of it.
pub open spec fn files_usage(files: Seq<Option<String>>, reader: LineReader) -> Result<
    Usage,
    MemError,
>
    decreases files.len(),
{
    if files.len() == 0 {
        Ok(Map::empty())
    } else {
        match files_usage(files.drop_last(), reader) {
            Err(e) => Err(e),
            Ok(mem) => match files.last() {
                None => Err(MemError::Unreadable),
                Some(text) => match lines_added(mem, text_read(text@, reader)) {
                    (_, Some(e)) => Err(MemError::Number(e)),
                    (added, None) => Ok(added),
                },
            },
        }
    }
}

/// The files that could be read are ASCII.
pub open spec fn files_are_ascii(files: Seq<Option<String>>) -> bool {
    forall|i: int|
        0 <= i < files.len() ==> ((#[trigger] files[i]) matches Some(text) ==> is_ascii_chars(text@))
}

/// What is wrong with the first files is wrong with all.
proof fn lemma_file_error_stays(files: Seq<Option<String>>, reader: LineReader, n: int)
    requires
        0 <= n <= files.len(),
        files_usage(files.take(n), reader) is Err,
    ensures
        files_usage(files, reader) == files_usage(files.take(n), reader),
    decreases files.len(),
{
    if n == files.len() {
        assert(files.take(n) =~= files);
    } else {
        assert(files.drop_last().take(n) =~= files.take(n));
        lemma_file_error_stays(files.drop_last(), reader, n);
    }
}

/// What came of reading files is what a reader of lines makes of them.
pub open spec fn is_usage(
    r: Result<StreamMap<Vec<DMABuffer>>, MemError>,
    usage: Result<Usage, MemError>,
) -> bool {
    match r {
        Ok(mem) => usage == Ok::<Usage, MemError>(usage_view(mem@)),
        Err(e) => usage == Err::<Usage, MemError>(e),
    }
}

/// The memory usage of each stream: what the `mem` file of every device lists. A file that could
/// not be read is missing.
pub fn v4l2_mem_get_usage(files: &Vec<Option<String>>) -> (r: Result<
    StreamMap<Vec<DMABuffer>>,
    MemError,
>)
    ensures
        is_usage(r, files_usage(files@, by_pattern())),
        files_are_ascii(files@) ==> is_usage(r, files_usage(files@, by_grammar())),
{
    let mut mem: StreamMap<Vec<DMABuffer>> = StreamMap::new();
    let ghost ascii = files_are_ascii(files@);
    assert(usage_view(mem@) =~= Map::empty());
    let mut i: usize = 0;
    while i < files.len()
        invariant
            i <= files.len(),
            ascii == files_are_ascii(files@),
            files_usage(files@.take(i as int), by_pattern()) == Ok::<Usage, MemError>(
                usage_view(mem@),
            ),
            ascii ==> files_usage(files@.take(i as int), by_grammar()) == Ok::<Usage, MemError>(
                usage_view(mem@),
            ),
        decreases files.len() - i,
    {
        let ghost next = files@.take(i + 1);
        assert(next.drop_last() =~= files@.take(i as int));
        assert(next.last() == files@[i as int]);
        let failure: Option<MemError> = match &files[i] {
            None => Some(MemError::Unreadable),
            Some(text) => match parse_mem_file(text.as_str(), &mut mem) {
                Ok(()) => None,
                Err(e) => Some(MemError::Number(e)),
            },
        };
        if let Some(e) = failure {
            proof {
                assert(files_usage(next, by_pattern()) == Err::<Usage, MemError>(e));
                lemma_file_error_stays(files@, by_pattern(), i + 1);
                if ascii {
                    assert(files_usage(next, by_grammar()) == Err::<Usage, MemError>(e));
                    lemma_file_error_stays(files@, by_grammar(), i + 1);
                }
            }
            return Err(e);
        }
        i += 1;
    }
    assert(files@.take(files.len() as int) =~= files@);
    Ok(mem)
}

/// A gap has one end: where the spaces that start at `from` stop.
proof fn lemma_gap_end(line: Seq<char>, from: int, a: int, b: int)
    requires
        is_gap(line, from, a),
        is_gap(line, from, b),
        a < line.len(),
        line[a] != ' ',
        b < line.len(),
        line[b] != ' ',
    ensures
        a == b,
{
}

/// A number that a space follows has one end.
proof fn lemma_number_end(line: Seq<char>, from: int, a: int, b: int)
    requires
        is_number(line, (from, a)),
        is_number(line, (from, b)),
        a < line.len(),
        line[a] == ' ',
        b < line.len(),
        line[b] == ' ',
    ensures
        a == b,
{
    if a < b {
        assert(is_digit(line[a]));
    } else if b < a {
        assert(is_digit(line[b]));
    }
}

/// A line has at most one first description of a buffer.
pub proof fn first_description_is_unique(line: Seq<char>, a: LineBounds, b: LineBounds)
    requires
        is_first_description(line, a),
        is_first_description(line, b),
    ensures
        a == b,
{
    assert(a.creator.0 == b.creator.0);
    assert(line[a.creator.1] == ' ' && line[b.creator.1] == ' ');
    assert(a.creator.1 == b.creator.1) by {
        if a.creator.1 < b.creator.1 {
            assert(line[a.creator.1] != ' ');
        } else if b.creator.1 < a.creator.1 {
            assert(line[b.creator.1] != ' ');
        }
    }
    assert(is_digit(line[a.fd.0]) && is_digit(line[b.fd.0]));
    lemma_gap_end(line, a.creator.1, a.fd.0, b.fd.0);
    lemma_number_end(line, a.fd.0, a.fd.1, b.fd.1);
    assert(is_digit(line[a.pid.0]) && is_digit(line[b.pid.0]));
    lemma_gap_end(line, a.fd.1, a.pid.0, b.pid.0);
    lemma_number_end(line, a.pid.0, a.pid.1, b.pid.1);
    assert(is_digit(line[a.size.0]) && is_digit(line[b.size.0]));
    lemma_gap_end(line, a.pid.1, a.size.0, b.size.0);
    lemma_number_end(line, a.size.0, a.size.1, b.size.1);
    lemma_gap_end(line, a.size.1, a.label.0, b.label.0);
    assert(a.label.1 == b.label.1) by {
        if a.label.1 < b.label.1 {
            assert(line[a.label.1] == '\n');
        } else if b.label.1 < a.label.1 {
            assert(line[b.label.1] == '\n');
        }
    }
}

/// A line that describes a buffer.
pub open spec fn buffer_line(
    creator: Seq<char>,
    fd: usize,
    pid: usize,
    size: usize,
    label: Seq<char>,
) -> Seq<char> {
    creator + " "@ + decimal(fd as nat) + " "@ + decimal(pid as nat) + " "@ + decimal(size as nat)
        + " "@ + label
}

/// A number written in decimal consists of digits.
proof fn lemma_decimal_digits(n: nat)
    ensures
        decimal(n).len() > 0,
        forall|i: int| 0 <= i < decimal(n).len() ==> is_digit(#[trigger] decimal(n)[i]),
    decreases n,
{
    if n >= 10 {
        lemma_decimal_digits(n / 10);
    }
}

/// The description of a buffer reads as what was written, and adds that buffer to those of its
/// stream: for every creator without spaces, and every label that does not start with a space and
/// stays on the line.
pub proof fn buffer_line_round_trip(
    mem: Usage,
    creator: Seq<char>,
    fd: usize,
    pid: usize,
    size: usize,
    label: Seq<char>,
)
    requires
        creator.len() > 0,
        !creator.contains(' '),
        label.len() > 0,
        label[0] != ' ',
        !label.contains('\n'),
    ensures
        ({
            let line = buffer_line(creator, fd, pid, size, label);
            let stream = V4L2Stream { pid, fd };
            let buffers = match described_buffer(line) {
                Some(texts) => line_added(mem, texts),
                None => (mem, None),
            };
            &&& described_buffer(line) == Some(
                (decimal(fd as nat), decimal(pid as nat), decimal(size as nat), label),
            )
            &&& buffers == (
                mem.insert(
                    stream,
                    (if mem.contains_key(stream) {
                        mem[stream]
                    } else {
                        Seq::empty()
                    }).push((label, size)),
                ),
                None::<NumberError>,
            )
        }),
{
    reveal_strlit(" ");
    let line = buffer_line(creator, fd, pid, size, label);
    let f = decimal(fd as nat);
    let p = decimal(pid as nat);
    let z = decimal(size as nat);
    lemma_decimal_digits(fd as nat);
    lemma_decimal_digits(pid as nat);
    lemma_decimal_digits(size as nat);
    let c1 = creator.len() as int;
    let f1 = c1 + 1 + f.len();
    let p1 = f1 + 1 + p.len();
    let z1 = p1 + 1 + z.len();
    let b = LineBounds {
        creator: (0, c1),
        fd: (c1 + 1, f1),
        pid: (f1 + 1, p1),
        size: (p1 + 1, z1),
        label: (z1 + 1, line.len() as int),
    };
    assert(line.subrange(b.fd.0, b.fd.1) =~= f);
    assert(line.subrange(b.pid.0, b.pid.1) =~= p);
    assert(line.subrange(b.size.0, b.size.1) =~= z);
    assert(line.subrange(b.label.0, b.label.1) =~= label);
    assert forall|i: int| 0 <= i < c1 implies line[i] != ' ' by {
        assert(line[i] == creator[i]);
        assert(creator.contains(creator[i]));
    }
    assert forall|i: int| b.fd.0 <= i < b.fd.1 implies is_digit(line[i]) by {
        assert(line[i] == f[i - b.fd.0]);
    }
    assert forall|i: int| b.pid.0 <= i < b.pid.1 implies is_digit(line[i]) by {
        assert(line[i] == p[i - b.pid.0]);
    }
    assert forall|i: int| b.size.0 <= i < b.size.1 implies is_digit(line[i]) by {
        assert(line[i] == z[i - b.size.0]);
    }
    assert forall|i: int| b.label.0 < i < b.label.1 implies line[i] != '\n' by {
        assert(line[i] == label[i - b.label.0]);
        assert(label.contains(label[i - b.label.0]));
    }
    assert(line[b.label.0] == label[0]);
    assert(describes_buffer(line, b));
    assert(is_first_description(line, b));
    let chosen = choose|b: LineBounds| is_first_description(line, b);
    first_description_is_unique(line, b, chosen);
    number_round_trip(fd as u64, usize::MAX as u64);
    number_round_trip(pid as u64, usize::MAX as u64);
    number_round_trip(size as u64, usize::MAX as u64);
}

/// What a line of a `mem` file says of a buffer.
pub struct BufferRecord {
    pub creator: Seq<char>,
    pub fd: usize,
    pub pid: usize,
    pub size: usize,
    pub label: Seq<char>,
}

/// A record that can be written: its parts stay on the line, there is no space in the creator, and
/// the label neither starts with a space nor ends with a carriage return.
pub open spec fn is_writable_record(r: BufferRecord) -> bool {
    &&& r.creator.len() > 0
    &&& !r.creator.contains(' ')
    &&& !r.creator.contains('\n')
    &&& r.label.len() > 0
    &&& r.label[0] != ' '
    &&& r.label.last() != '\r'
    &&& !r.label.contains('\n')
}

/// Records as a `mem` file lists them, each on a line of its own.
pub open spec fn mem_text(records: Seq<BufferRecord>) -> Seq<char>
    decreases records.len(),
{
    if records.len() == 0 {
        Seq::empty()
    } else {
        let r = records[0];
        buffer_line(r.creator, r.fd, r.pid, r.size, r.label) + seq!['\n'] + mem_text(
            records.drop_first(),
        )
    }
}

/// The buffers that records list for a stream, in order and as often as they are listed.
pub open spec fn buffers_listed(records: Seq<BufferRecord>, stream: V4L2Stream) -> Seq<
    (Seq<char>, usize),
> {
    records.filter(|r: BufferRecord| r.pid == stream.pid && r.fd == stream.fd).map_values(
        |r: BufferRecord| (r.label, r.size),
    )
}

/// The texts that a record is read as.
spec fn record_texts(records: Seq<BufferRecord>) -> Seq<Option<LineTexts>> {
    records.map_values(
        |r: BufferRecord|
            Some(
                (decimal(r.fd as nat), decimal(r.pid as nat), decimal(r.size as nat), r.label),
            ),
    )
}

proof fn lemma_buffer_line_stays_on_the_line(r: BufferRecord)
    requires
        is_writable_record(r),
    ensures
        !buffer_line(r.creator, r.fd, r.pid, r.size, r.label).contains('\n'),
        buffer_line(r.creator, r.fd, r.pid, r.size, r.label).len() > 0,
        buffer_line(r.creator, r.fd, r.pid, r.size, r.label).last() != '\r',
{
    reveal_strlit(" ");
    lemma_decimal_digits(r.fd as nat);
    lemma_decimal_digits(r.pid as nat);
    lemma_decimal_digits(r.size as nat);
    let line = buffer_line(r.creator, r.fd, r.pid, r.size, r.label);
    let f = decimal(r.fd as nat);
    let p = decimal(r.pid as nat);
    let z = decimal(r.size as nat);
    let c1 = r.creator.len() as int;
    let f1 = c1 + 1 + f.len();
    let p1 = f1 + 1 + p.len();
    let z1 = p1 + 1 + z.len();
    assert(line.len() == z1 + 1 + r.label.len());
    assert(line.last() == r.label.last());
    assert forall|i: int| 0 <= i < line.len() implies line[i] != '\n' by {
        if i < c1 {
            assert(line[i] == r.creator[i]);
            assert(r.creator.contains(r.creator[i]));
        } else if c1 < i < f1 {
            assert(line[i] == f[i - c1 - 1]);
            assert(is_digit(f[i - c1 - 1]));
        } else if f1 < i < p1 {
            assert(line[i] == p[i - f1 - 1]);
            assert(is_digit(p[i - f1 - 1]));
        } else if p1 < i < z1 {
            assert(line[i] == z[i - p1 - 1]);
            assert(is_digit(z[i - p1 - 1]));
        } else if i > z1 {
            assert(line[i] == r.label[i - z1 - 1]);
            assert(r.label.contains(r.label[i - z1 - 1]));
        } else {
            assert(line[i] == ' ');
        }
    }
}

proof fn lemma_records_are_read(records: Seq<BufferRecord>)
    requires
        forall|i: int| 0 <= i < records.len() ==> is_writable_record(#[trigger] records[i]),
    ensures
        text_read(mem_text(records), by_grammar()) == record_texts(records),
    decreases records.len(),
{
    let text = mem_text(records);
    if records.len() == 0 {
        assert(lines_of(text) =~= Seq::empty());
        assert(text_read(text, by_grammar()) =~= record_texts(records));
    } else {
        let r = records[0];
        let rest = records.drop_first();
        let line = buffer_line(r.creator, r.fd, r.pid, r.size, r.label);
        assert(is_writable_record(r));
        assert forall|i: int| 0 <= i < rest.len() implies is_writable_record(#[trigger] rest[i]) by {
            assert(rest[i] == records[i + 1]);
        }
        lemma_records_are_read(rest);
        lemma_buffer_line_stays_on_the_line(r);
        line_feeds_part_lines(line, mem_text(rest));
        buffer_line_round_trip(Map::empty(), r.creator, r.fd, r.pid, r.size, r.label);
        let more = lines_of(mem_text(rest));
        assert(lines_of(text) == seq![line] + more);
        let all = text_read(text, by_grammar());
        assert(text_read(mem_text(rest), by_grammar()).len() == more.len());
        assert(all.len() == records.len());
        assert forall|i: int| 0 <= i < all.len() implies all[i] == record_texts(records)[i] by {
            if i > 0 {
                assert(lines_of(text)[i] == more[i - 1]);
                assert(all[i] == text_read(mem_text(rest), by_grammar())[i - 1]);
                assert(record_texts(rest)[i - 1] == record_texts(records)[i]);
            }
        }
        assert(all =~= record_texts(records));
    }
}

/// The buffers of a stream, none where it has no place.
pub open spec fn buffers_in(mem: Usage, stream: V4L2Stream) -> Seq<(Seq<char>, usize)> {
    if mem.contains_key(stream) {
        mem[stream]
    } else {
        Seq::empty()
    }
}

proof fn lemma_records_are_added(mem: Usage, records: Seq<BufferRecord>, stream: V4L2Stream)
    requires
        forall|i: int| 0 <= i < records.len() ==> is_writable_record(#[trigger] records[i]),
    ensures
        ({
            let (added, error) = lines_added(mem, record_texts(records));
            &&& error is None
            &&& buffers_in(added, stream) == buffers_in(mem, stream) + buffers_listed(
                records,
                stream,
            )
            &&& added.contains_key(stream) <==> mem.contains_key(stream) || buffers_listed(
                records,
                stream,
            ).len() > 0
        }),
    decreases records.len(),
{
    reveal(Seq::filter);
    let texts = record_texts(records);
    if records.len() == 0 {
        assert(buffers_listed(records, stream) =~= Seq::empty());
        assert(buffers_in(mem, stream) + buffers_listed(records, stream) =~= buffers_in(
            mem,
            stream,
        ));
    } else {
        let rest = records.drop_last();
        let r = records.last();
        assert(is_writable_record(records[records.len() - 1]));
        assert forall|i: int| 0 <= i < rest.len() implies is_writable_record(#[trigger] rest[i]) by {
            assert(rest[i] == records[i]);
        }
        lemma_records_are_added(mem, rest, stream);
        assert(texts.drop_last() =~= record_texts(rest));
        let (before, _) = lines_added(mem, record_texts(rest));
        buffer_line_round_trip(before, r.creator, r.fd, r.pid, r.size, r.label);
        let own = |r: BufferRecord| r.pid == stream.pid && r.fd == stream.fd;
        let listed = buffers_listed(rest, stream);
        if own(r) {
            assert(records.filter(own) == rest.filter(own).push(r));
            assert(buffers_listed(records, stream) =~= listed.push((r.label, r.size)));
            assert(buffers_in(mem, stream) + listed.push((r.label, r.size)) =~= (buffers_in(
                mem,
                stream,
            ) + listed).push((r.label, r.size)));
        } else {
            assert(records.filter(own) == rest.filter(own));
            assert(buffers_listed(records, stream) =~= listed);
        }
    }
}

/// A `mem` file is read line by line: each stream has the buffers that it had, followed by those
/// that the lines list for it, in order and as often as they are listed, and no stream gets those
/// of another. A stream gets a place with its first buffer.
pub proof fn mem_file_round_trip(mem: Usage, records: Seq<BufferRecord>, stream: V4L2Stream)
    requires
        forall|i: int| 0 <= i < records.len() ==> is_writable_record(#[trigger] records[i]),
    ensures
        ({
            let (added, error) = lines_added(
                mem,
                text_read(mem_text(records), by_grammar()),
            );
            let own = records.filter(
                |r: BufferRecord| r.pid == stream.pid && r.fd == stream.fd,
            );
            &&& error is None
            &&& (if added.contains_key(stream) {
                added[stream]
            } else {
                Seq::empty()
            }) == (if mem.contains_key(stream) {
                mem[stream]
            } else {
                Seq::empty()
            }) + own.map_values(|r: BufferRecord| (r.label, r.size))
            &&& added.contains_key(stream) <==> mem.contains_key(stream) || own.len() > 0
        }),
{
    lemma_records_are_read(records);
    lemma_records_are_added(mem, records, stream);
}

/// One more line: a line without a buffer adds nothing, and one with a buffer adds it whatever the
/// lines before it were; after an error no line adds anything.
pub proof fn each_line_adds_its_buffer(
    mem: Usage,
    lines: Seq<Option<LineTexts>>,
    fd: usize,
    pid: usize,
    size: usize,
    label: Seq<char>,
)
    ensures
        ({
            let (before, error) = lines_added(mem, lines);
            let stream = V4L2Stream { pid, fd };
            let line = (decimal(fd as nat), decimal(pid as nat), decimal(size as nat), label);
            &&& lines_added(mem, lines.push(None)) == (before, error)
            &&& error is Some ==> lines_added(mem, lines.push(Some(line))) == (before, error)
            &&& error is None ==> lines_added(mem, lines.push(Some(line))) == (
                before.insert(
                    stream,
                    (if before.contains_key(stream) {
                        before[stream]
                    } else {
                        Seq::empty()
                    }).push((label, size)),
                ),
                None::<NumberError>,
            )
        }),
        lines_added(mem, Seq::empty()) == (mem, None::<NumberError>),
{
    let line = (decimal(fd as nat), decimal(pid as nat), decimal(size as nat), label);
    assert(lines.push(None).drop_last() =~= lines);
    assert(lines.push(Some(line)).drop_last() =~= lines);
    number_round_trip(fd as u64, usize::MAX as u64);
    number_round_trip(pid as u64, usize::MAX as u64);
    number_round_trip(size as u64, usize::MAX as u64);
}

/// A number that is out of range is an error: that of the process comes before that of the
/// descriptor, and that of the size last. No buffer is added then, and no buffer is lost.
pub proof fn numbers_out_of_range_add_no_buffer(
    mem: Usage,
    fd: nat,
    pid: nat,
    size: nat,
    label: Seq<char>,
    stream: V4L2Stream,
)
    requires
        fd > usize::MAX || pid > usize::MAX || size > usize::MAX,
    ensures
        ({
            let (added, error) = line_added(
                mem,
                (decimal(fd), decimal(pid), decimal(size), label),
            );
            &&& error == Some(NumberError::TooLarge)
            &&& mem.contains_key(stream) ==> added.contains_key(stream) && added[stream]
                == mem[stream]
            &&& added.contains_key(stream) && !mem.contains_key(stream) ==> added[stream].len() == 0
                && stream.pid == pid && stream.fd == fd
            &&& pid <= usize::MAX && fd <= usize::MAX && stream.pid == pid && stream.fd == fd
                ==> added.contains_key(stream)
        }),
{
    numbers_read_as_themselves(0, fd, usize::MAX as u64, Seq::empty());
    numbers_read_as_themselves(0, pid, usize::MAX as u64, Seq::empty());
    numbers_read_as_themselves(0, size, usize::MAX as u64, Seq::empty());
    assert(zeros(0) + decimal(fd) =~= decimal(fd));
    assert(zeros(0) + decimal(fd) + Seq::<char>::empty() =~= decimal(fd));
    assert(zeros(0) + decimal(pid) =~= decimal(pid));
    assert(zeros(0) + decimal(pid) + Seq::<char>::empty() =~= decimal(pid));
    assert(zeros(0) + decimal(size) =~= decimal(size));
    assert(zeros(0) + decimal(size) + Seq::<char>::empty() =~= decimal(size));
}

/// One more file: its lines are added to what the files before it list. A file that could not be
/// read is an error, and so is a number that cannot be read; after an error no file counts.
pub proof fn each_file_adds_its_lines(
    files: Seq<Option<String>>,
    file: Option<String>,
    reader: LineReader,
)
    ensures
        files_usage(files.push(file), reader) == match (files_usage(files, reader), file) {
            (Err(e), _) => Err(e),
            (Ok(_), None) => Err(MemError::Unreadable),
            (Ok(mem), Some(text)) => {
                let (added, error) = lines_added(mem, lines_of(text@).map_values(reader));
                match error {
                    Some(e) => Err(MemError::Number(e)),
                    None => Ok(added),
                }
            },
        },
        files_usage(Seq::empty(), reader) == Ok::<Usage, MemError>(Map::empty()),
{
    assert(files.push(file).drop_last() =~= files);
}

/// The buffers of a map are all there, with their labels and sizes.
pub proof fn usage_views_leave_nothing_out(
    mem: Map<V4L2Stream, Vec<DMABuffer>>,
    stream: V4L2Stream,
    i: int,
)
    ensures
        usage_view(mem).contains_key(stream) <==> mem.contains_key(stream),
        mem.contains_key(stream) ==> usage_view(mem)[stream].len() == mem[stream].len(),
        mem.contains_key(stream) && 0 <= i < mem[stream].len() ==> usage_view(mem)[stream][i] == (
            mem[stream]@[i].label@,
            mem[stream]@[i].size,
        ),
{
}

} // verus!
