//! V4L2 fdinfo stats.
//!
//! Finds, in what `/proc` lists, the file descriptors that point to V4L2 character devices, and
//! reads their `fdinfo` entries as key-value maps.

use vstd::hash_map::StringHashMap;
use vstd::prelude::*;

use crate::device::{
    decoder_name_of, decoders_are_looked_up_by_both_numbers, dev_of, is_v4l2_device, is_v4l2_fd,
    resolve_decoder_name, v4l2_devices_have_major_81, FileDevice, MediaTopology,
};
use crate::stream::{StreamMap, V4L2Stream};
use crate::text::{
    decimal, find_char, from_chars, index_of, is_digit, is_white_space, lemma_index_of, lines_of,
    numbers_read_as_themselves, other_texts_are_no_numbers, parse_usize, parsed_number, slice_chars,
    split_lines, to_chars, trim_chars, trim_end, trim_start, trimmed, views, without_cr, zeros,
    NumberError,
};

verus! {

/// Texts by their names.
pub type Fields = Map<Seq<char>, Seq<char>>;

/// The fields that a map holds.
pub open spec fn field_views(fields: Map<Seq<char>, String>) -> Fields {
    fields.map_values(|v: String| v@)
}

/// The key and the value in a line: what stands before its first colon and what stands behind it.
/// A line without a colon has none.
pub open spec fn line_field(line: Seq<char>) -> Option<(Seq<char>, Seq<char>)> {
    let i = index_of(line, ':') as int;
    if i < line.len() {
        Some((trimmed(line.take(i)), trimmed(line.skip(i + 1))))
    } else {
        None
    }
}

/// The fields in the lines of an fdinfo file. Of two lines with one key the later stands.
pub open spec fn fdinfo_fields(lines: Seq<Seq<char>>) -> Fields
    decreases lines.len(),
{
    if lines.len() == 0 {
        Map::empty()
    } else {
        match line_field(lines.last()) {
            Some((key, value)) => fdinfo_fields(lines.drop_last()).insert(key, value),
            None => fdinfo_fields(lines.drop_last()),
        }
    }
}

/// Parses the text of a single fdinfo file.
///
/// Lines that do not contain a `:` separator are skipped.
pub fn parse_fdinfo(text: &str) -> (r: StringHashMap<String>)
    ensures
        field_views(r@) == fdinfo_fields(lines_of(text@)),
{
    let lines: Vec<Vec<char>> = split_lines(&to_chars(text));
    let ghost all = lines_of(text@);
    let mut r: StringHashMap<String> = StringHashMap::new();
    let mut i: usize = 0;
    assert(field_views(r@) =~= fdinfo_fields(all.take(0)));
    while i < lines.len()
        invariant
            i <= lines.len(),
            all == views(lines@),
            field_views(r@) == fdinfo_fields(all.take(i as int)),
        decreases lines.len() - i,
    {
        let line: &Vec<char> = &lines[i];
        assert(all.take(i + 1).drop_last() =~= all.take(i as int));
        assert(all.take(i + 1).last() == line@);
        assert(line@.skip(0) =~= line@);
        let colon: usize = find_char(line, 0, ':');
        if colon < line.len() {
            let key: Vec<char> = trim_chars(&slice_chars(line, 0, colon));
            let value: Vec<char> = trim_chars(&slice_chars(line, colon + 1, line.len()));
            assert(line@.take(colon as int) =~= line@.subrange(0, colon as int));
            assert(line@.skip(colon + 1) =~= line@.subrange(colon + 1, line.len() as int));
            let ghost before = r@;
            let value: String = from_chars(&value);
            r.insert(from_chars(&key), value);
            assert(field_views(r@) =~= field_views(before).insert(key@, value@));
        }
        i += 1;
    }
    assert(all.take(all.len() as int) =~= all);
    r
}

proof fn lemma_trim_end(s: Seq<char>)
    ensures
        trim_end(s).len() <= s.len(),
        trim_end(s) == s.take(trim_end(s).len() as int),
        trim_end(s).len() > 0 ==> !is_white_space(trim_end(s).last()),
    decreases s.len(),
{
    if s.len() > 0 && is_white_space(s.last()) {
        lemma_trim_end(s.drop_last());
        let n = trim_end(s).len() as int;
        assert(s.take(n) =~= s.drop_last().take(n));
    } else {
        assert(s.take(s.len() as int) =~= s);
    }
}

proof fn lemma_trim_start(s: Seq<char>)
    ensures
        trim_start(s).len() > 0 ==> !is_white_space(trim_start(s)[0]),
    decreases s.len(),
{
    if s.len() > 0 && is_white_space(s[0]) {
        lemma_trim_start(s.drop_first());
    }
}

/// A text has no white space at its ends.
pub open spec fn is_trimmed(s: Seq<char>) -> bool {
    s.len() > 0 ==> !is_white_space(s[0]) && !is_white_space(s.last())
}

proof fn lemma_trimmed(s: Seq<char>)
    ensures
        is_trimmed(trimmed(s)),
{
    lemma_trim_start(s);
    lemma_trim_end(trim_start(s));
}

/// No key and no value of an fdinfo file has white space at its ends.
pub proof fn fdinfo_fields_are_trimmed(lines: Seq<Seq<char>>, key: Seq<char>)
    requires
        fdinfo_fields(lines).contains_key(key),
    ensures
        is_trimmed(key),
        is_trimmed(fdinfo_fields(lines)[key]),
    decreases lines.len(),
{
    if lines.len() > 0 {
        let line = lines.last();
        let i = index_of(line, ':') as int;
        lemma_trimmed(line.take(i));
        lemma_trimmed(line.skip(i + 1));
        if line_field(line) matches Some((k, v)) && k == key {
        } else {
            fdinfo_fields_are_trimmed(lines.drop_last(), key);
        }
    }
}

/// A line without a colon adds no field and takes none away.
pub proof fn lines_without_colon_are_skipped(lines: Seq<Seq<char>>, line: Seq<char>)
    requires
        !line.contains(':'),
    ensures
        fdinfo_fields(lines.push(line)) == fdinfo_fields(lines),
{
    assert forall|i: int| 0 <= i < line.len() implies line[i] != ':' by {
        assert(line.contains(line[i]));
    }
    lemma_index_of(line, ':', line.len() as int);
    assert(lines.push(line).drop_last() =~= lines);
}

/// A line with a field, as fdinfo files write it.
pub open spec fn field_line(field: (Seq<char>, Seq<char>)) -> Seq<char> {
    field.0 + ":\t"@ + field.1
}

/// Fields as an fdinfo file writes them, each on a line of its own.
pub open spec fn fdinfo_text(fields: Seq<(Seq<char>, Seq<char>)>) -> Seq<char>
    decreases fields.len(),
{
    if fields.len() == 0 {
        Seq::empty()
    } else {
        field_line(fields[0]) + "\n"@ + fdinfo_text(fields.drop_first())
    }
}

/// Fields, of which later ones stand in place of earlier ones with the same key.
pub open spec fn fields_of(fields: Seq<(Seq<char>, Seq<char>)>) -> Fields
    decreases fields.len(),
{
    if fields.len() == 0 {
        Map::empty()
    } else {
        fields_of(fields.drop_last()).insert(fields.last().0, fields.last().1)
    }
}

/// A field that can be written: there is no white space at the ends of its key and its value, both
/// stay on the line, and there is no colon in the key.
pub open spec fn is_writable(field: (Seq<char>, Seq<char>)) -> bool {
    &&& is_trimmed(field.0)
    &&& is_trimmed(field.1)
    &&& !field.0.contains(':')
    &&& !field.0.contains('\n')
    &&& !field.1.contains('\n')
}

proof fn lemma_trimmed_stays(s: Seq<char>)
    requires
        is_trimmed(s),
    ensures
        trimmed(s) == s,
{
}

proof fn lemma_field_line(field: (Seq<char>, Seq<char>))
    requires
        is_writable(field),
    ensures
        line_field(field_line(field)) == Some(field),
        index_of(field_line(field), '\n') == field_line(field).len(),
        without_cr(field_line(field)) == field_line(field),
{
    reveal_strlit(":\t");
    let line = field_line(field);
    let n = field.0.len() as int;
    assert forall|i: int| 0 <= i < n implies line[i] != ':' && line[i] != '\n' by {
        assert(line[i] == field.0[i]);
        assert(field.0.contains(field.0[i]));
    }
    assert(line[n] == ':' && line[n + 1] == '\t');
    assert forall|i: int| n + 2 <= i < line.len() implies line[i] != '\n' by {
        assert(line[i] == field.1[i - n - 2]);
        assert(field.1.contains(field.1[i - n - 2]));
    }
    lemma_index_of(line, ':', n);
    lemma_index_of(line, '\n', line.len() as int);
    assert(line.take(n) =~= field.0);
    let rest = line.skip(n + 1);
    assert(rest.drop_first() =~= field.1);
    assert(rest[0] == '\t');
    assert(trim_start(rest) == trim_start(field.1));
    lemma_trimmed_stays(field.0);
    lemma_trimmed_stays(field.1);
    assert(field.1.len() > 0 ==> line.last() == field.1.last());
}

/// A line in front of a text.
proof fn lemma_line_in_front(line: Seq<char>, rest: Seq<char>)
    requires
        index_of(line, '\n') == line.len(),
        without_cr(line) == line,
    ensures
        lines_of(line + "\n"@ + rest) == seq![line] + lines_of(rest),
{
    reveal_strlit("\n");
    let text = line + "\n"@ + rest;
    let n = line.len() as int;
    assert forall|i: int| 0 <= i < n implies text[i] != '\n' by {
        lemma_index_of_absent(line, '\n', i);
        assert(text[i] == line[i]);
    }
    assert(text[n] == '\n');
    lemma_index_of(text, '\n', n);
    assert(text.take(n) =~= line);
    assert(text.skip(n + 1) =~= rest);
}

/// What does not occur stands nowhere.
proof fn lemma_index_of_absent(s: Seq<char>, c: char, i: int)
    requires
        index_of(s, c) == s.len(),
        0 <= i < s.len(),
    ensures
        s[i] != c,
    decreases s.len(),
{
    if i > 0 {
        lemma_index_of_absent(s.drop_first(), c, i - 1);
    }
}

proof fn lemma_fdinfo_lines(fields: Seq<(Seq<char>, Seq<char>)>)
    requires
        forall|i: int| 0 <= i < fields.len() ==> is_writable(#[trigger] fields[i]),
    ensures
        lines_of(fdinfo_text(fields)) == fields.map_values(
            |f: (Seq<char>, Seq<char>)| field_line(f),
        ),
    decreases fields.len(),
{
    let lines = fields.map_values(|f: (Seq<char>, Seq<char>)| field_line(f));
    if fields.len() == 0 {
        assert(lines =~= Seq::empty());
    } else {
        let rest = fields.drop_first();
        assert(is_writable(fields[0]));
        assert forall|i: int| 0 <= i < rest.len() implies is_writable(#[trigger] rest[i]) by {
            assert(rest[i] == fields[i + 1]);
        }
        lemma_fdinfo_lines(rest);
        lemma_field_line(fields[0]);
        lemma_line_in_front(field_line(fields[0]), fdinfo_text(rest));
        assert(lines =~= seq![field_line(fields[0])] + rest.map_values(
            |f: (Seq<char>, Seq<char>)| field_line(f),
        ));
    }
}

proof fn lemma_fields_of_lines(fields: Seq<(Seq<char>, Seq<char>)>)
    requires
        forall|i: int| 0 <= i < fields.len() ==> is_writable(#[trigger] fields[i]),
    ensures
        fdinfo_fields(fields.map_values(|f: (Seq<char>, Seq<char>)| field_line(f))) == fields_of(
            fields,
        ),
    decreases fields.len(),
{
    if fields.len() > 0 {
        let rest = fields.drop_last();
        let lines = fields.map_values(|f: (Seq<char>, Seq<char>)| field_line(f));
        assert forall|i: int| 0 <= i < rest.len() implies is_writable(#[trigger] rest[i]) by {
            assert(rest[i] == fields[i]);
        }
        lemma_fields_of_lines(rest);
        assert(is_writable(fields[fields.len() - 1]));
        lemma_field_line(fields.last());
        assert(lines.drop_last() =~= rest.map_values(
            |f: (Seq<char>, Seq<char>)| field_line(f),
        ));
    }
}

/// Reading an fdinfo file gives back the fields that were written to it.
pub proof fn fdinfo_round_trip(fields: Seq<(Seq<char>, Seq<char>)>)
    requires
        forall|i: int| 0 <= i < fields.len() ==> is_writable(#[trigger] fields[i]),
    ensures
        fdinfo_fields(lines_of(fdinfo_text(fields))) == fields_of(fields),
{
    lemma_fdinfo_lines(fields);
    lemma_fields_of_lines(fields);
}

/// What is known of a descriptor of a V4L2 device.
pub struct V4l2FdInfo {
    /// All key-value pairs from the fdinfo file.
    pub fields: StringHashMap<String>,
    /// The time at which the file was read, in nanoseconds.
    pub timestamp: u64,
    /// Decoder entity name from the media topology, if found.
    pub driver: String,
}

/// The content of a [`V4l2FdInfo`].
pub struct FdInfoView {
    pub fields: Fields,
    pub timestamp: u64,
    pub driver: Seq<char>,
}

impl View for V4l2FdInfo {
    type V = FdInfoView;

    open spec fn view(&self) -> FdInfoView {
        FdInfoView {
            fields: field_views(self.fields@),
            timestamp: self.timestamp,
            driver: self.driver@,
        }
    }
}

/// The contents of a map's values.
pub open spec fn info_views(infos: Map<V4L2Stream, V4l2FdInfo>) -> Map<V4L2Stream, FdInfoView> {
    infos.map_values(|i: V4l2FdInfo| i@)
}

/// Why a process could not be scanned.
#[derive(Clone, Copy, Debug, PartialEq, Eq, Structural)]
pub enum ScanError {
    /// A directory or a file could not be read.
    Unreadable,
    /// The number of a descriptor is out of range.
    Number(NumberError),
}

/// An entry of a process's fdinfo directory, with what could be learnt about it.
pub enum FdEntry {
    /// The directory could not be read on.
    Unreadable,
    /// A file.
    File {
        name: String,
        /// The device that the descriptor of this name stands for.
        device: Option<FileDevice>,
        /// The device number behind the descriptor's link.
        target: Option<u64>,
        /// When the file was read, in nanoseconds.
        timestamp: u64,
        /// The text of the fdinfo file.
        text: Option<String>,
    },
}

/// A file name that consists of digits.
pub open spec fn is_numeric(name: Seq<char>) -> bool {
    forall|i: int| 0 <= i < name.len() ==> is_digit(#[trigger] name[i])
}

/// Whether a name in an fdinfo directory is that of a descriptor.
pub fn is_fd_name(name: &str) -> (r: bool)
    ensures
        r == is_numeric(name@),
{
    let chars: Vec<char> = to_chars(name);
    let mut i: usize = 0;
    while i < chars.len()
        invariant
            i <= chars.len(),
            chars@ == name@,
            forall|j: int| 0 <= j < i ==> is_digit(#[trigger] name@[j]),
        decreases chars.len() - i,
    {
        let c: char = chars[i];
        if !('0' <= c && c <= '9') {
            assert(!is_digit(name@[i as int]));
            return false;
        }
        i += 1;
    }
    true
}

/// The number of the descriptor that a file of an fdinfo directory is about, if it is one of a V4L2
/// device.
pub open spec fn v4l2_fd_of(name: Seq<char>, device: Option<FileDevice>) -> Result<
    Option<usize>,
    NumberError,
> {
    if is_numeric(name) && is_v4l2_device(device) {
        match parsed_number(name, usize::MAX as u64) {
            Ok(fd) => Ok(Some(fd as usize)),
            Err(e) => Err(e),
        }
    } else {
        Ok(None)
    }
}

/// The number of the descriptor that a file of an fdinfo directory is about, if it is one of a V4L2
/// device.
pub fn v4l2_fd(name: &str, device: Option<FileDevice>) -> (r: Result<Option<usize>, NumberError>)
    ensures
        r == v4l2_fd_of(name@, device),
{
    if is_fd_name(name) && is_v4l2_fd(device) {
        match parse_usize(&to_chars(name)) {
            Ok(fd) => Ok(Some(fd)),
            Err(e) => Err(e),
        }
    } else {
        Ok(None)
    }
}

/// What a descriptor's fdinfo comes to.
pub open spec fn fd_info(
    text: Seq<char>,
    timestamp: u64,
    target: Option<u64>,
    topology: Map<(u32, u32), Seq<char>>,
) -> FdInfoView {
    FdInfoView {
        fields: fdinfo_fields(lines_of(text)),
        timestamp,
        driver: match decoder_name_of(target, topology) {
            Some(name) => name,
            None => "unknown"@,
        },
    }
}

/// Adds what one entry comes to.
pub open spec fn entry_scanned(
    infos: Map<V4L2Stream, FdInfoView>,
    pid: usize,
    entry: FdEntry,
    topology: Map<(u32, u32), Seq<char>>,
) -> Result<Map<V4L2Stream, FdInfoView>, ScanError> {
    match entry {
        FdEntry::Unreadable => Err(ScanError::Unreadable),
        FdEntry::File { name, device, target, timestamp, text } => match v4l2_fd_of(name@, device) {
            Err(e) => Err(ScanError::Number(e)),
            Ok(None) => Ok(infos),
            Ok(Some(fd)) => match text {
                None => Err(ScanError::Unreadable),
                Some(text) => Ok(
                    infos.insert(
                        V4L2Stream { pid, fd },
                        fd_info(text@, timestamp, target, topology),
                    ),
                ),
            },
        },
    }
}

/// What the entries of a process's fdinfo directory come to, from the first on. The first error is
/// what comes of it.
pub open spec fn entries_scanned(
    pid: usize,
    entries: Seq<FdEntry>,
    topology: Map<(u32, u32), Seq<char>>,
) -> Result<Map<V4L2Stream, FdInfoView>, ScanError>
    decreases entries.len(),
{
    if entries.len() == 0 {
        Ok(Map::empty())
    } else {
        match entries_scanned(pid, entries.drop_last(), topology) {
            Err(e) => Err(e),
            Ok(infos) => entry_scanned(infos, pid, entries.last(), topology),
        }
    }
}

proof fn lemma_scan_error_stays(
    pid: usize,
    entries: Seq<FdEntry>,
    topology: Map<(u32, u32), Seq<char>>,
    n: int,
)
    requires
        0 <= n <= entries.len(),
        entries_scanned(pid, entries.take(n), topology) is Err,
    ensures
        entries_scanned(pid, entries, topology) == entries_scanned(pid, entries.take(n), topology),
    decreases entries.len(),
{
    if n == entries.len() {
        assert(entries.take(n) =~= entries);
    } else {
        assert(entries.drop_last().take(n) =~= entries.take(n));
        lemma_scan_error_stays(pid, entries.drop_last(), topology, n);
    }
}

/// What came of a scan.
pub type Scan = Result<StreamMap<V4l2FdInfo>, ScanError>;

/// The content of what came of a scan.
pub open spec fn scan_view(scan: Scan) -> Result<Map<V4L2Stream, FdInfoView>, ScanError> {
    match scan {
        Ok(infos) => Ok(info_views(infos@)),
        Err(e) => Err(e),
    }
}

/// What the fdinfo directory of a process comes to; it is missing where it could not be opened.
pub open spec fn process_scanned(
    pid: usize,
    entries: Option<Vec<FdEntry>>,
    topology: Map<(u32, u32), Seq<char>>,
) -> Result<Map<V4L2Stream, FdInfoView>, ScanError> {
    match entries {
        None => Err(ScanError::Unreadable),
        Some(entries) => entries_scanned(pid, entries@, topology),
    }
}

/// Finds all V4L2 fdinfo entries of a single process.
pub fn find_v4l2_fdinfo_for_pid(
    pid: usize,
    listed: &Option<Vec<FdEntry>>,
    topology: &MediaTopology,
) -> (r: Scan)
    ensures
        scan_view(r) == process_scanned(pid, *listed, topology@),
{
    let entries: &Vec<FdEntry> = match listed {
        None => {
            return Err(ScanError::Unreadable);
        },
        Some(e) => e,
    };
    let mut infos: StreamMap<V4l2FdInfo> = StreamMap::new();
    assert(info_views(infos@) =~= Map::empty());
    let mut i: usize = 0;
    while i < entries.len()
        invariant
            i <= entries.len(),
            *listed == Some(*entries),
            entries_scanned(pid, entries@.take(i as int), topology@) == Ok::<
                Map<V4L2Stream, FdInfoView>,
                ScanError,
            >(info_views(infos@)),
        decreases entries.len() - i,
    {
        let ghost next = entries@.take(i + 1);
        assert(next.drop_last() =~= entries@.take(i as int));
        assert(next.last() == entries@[i as int]);
        match scan_entry(&mut infos, pid, &entries[i], topology) {
            Ok(()) => {},
            Err(e) => {
                proof {
                    lemma_scan_error_stays(pid, entries@, topology@, i + 1);
                }
                return Err(e);
            },
        }
        i += 1;
    }
    assert(entries@.take(entries.len() as int) =~= entries@);
    Ok(infos)
}

/// Adds what one entry comes to; with an error nothing is added.
fn scan_entry(
    infos: &mut StreamMap<V4l2FdInfo>,
    pid: usize,
    entry: &FdEntry,
    topology: &MediaTopology,
) -> (r: Result<(), ScanError>)
    ensures
        match r {
            Ok(()) => entry_scanned(info_views(old(infos)@), pid, *entry, topology@) == Ok::<
                Map<V4L2Stream, FdInfoView>,
                ScanError,
            >(info_views(final(infos)@)),
            Err(e) => {
                &&& final(infos)@ == old(infos)@
                &&& entry_scanned(info_views(old(infos)@), pid, *entry, topology@) == Err::<
                    Map<V4L2Stream, FdInfoView>,
                    ScanError,
                >(e)
            },
        },
{
    match entry {
        FdEntry::Unreadable => Err(ScanError::Unreadable),
        FdEntry::File { name, device, target, timestamp, text } => {
            match v4l2_fd(name.as_str(), *device) {
                Err(e) => Err(ScanError::Number(e)),
                Ok(None) => Ok(()),
                Ok(Some(fd)) => match text {
                    None => Err(ScanError::Unreadable),
                    Some(text) => {
                        let fields = parse_fdinfo(text.as_str());
                        let driver: String = match resolve_decoder_name(*target, topology) {
                            Some(name) => name,
                            None => "unknown".to_owned(),
                        };
                        let info = V4l2FdInfo { fields, timestamp: *timestamp, driver };
                        let stream = V4L2Stream::new(pid, fd);
                        infos.insert(stream, info);
                        assert(info_views(infos@) =~= info_views(old(infos)@).insert(
                            stream,
                            info@,
                        ));
                        Ok(())
                    },
                },
            }
        },
    }
}

/// An entry of `/proc`: its name, and, where it is that of a process, the process's fdinfo
/// directory. The name is missing where `/proc` could not be read on.
pub struct ProcEntry {
    pub name: Option<String>,
    pub entries: Option<Vec<FdEntry>>,
}

/// The number of the process that an entry of `/proc` stands for.
pub open spec fn pid_of(name: Seq<char>) -> Option<usize> {
    match parsed_number(name, usize::MAX as u64) {
        Ok(pid) => Some(pid as usize),
        Err(_) => None,
    }
}

/// The number of the process that an entry of `/proc` stands for.
pub fn proc_pid(name: &str) -> (r: Option<usize>)
    ensures
        r == pid_of(name@),
{
    match parse_usize(&to_chars(name)) {
        Ok(pid) => Some(pid),
        Err(_) => None,
    }
}

/// What all processes come to. A process that cannot be scanned adds nothing.
pub open spec fn processes_scanned(
    procs: Seq<ProcEntry>,
    topology: Map<(u32, u32), Seq<char>>,
) -> Result<Map<V4L2Stream, FdInfoView>, ScanError>
    decreases procs.len(),
{
    if procs.len() == 0 {
        Ok(Map::empty())
    } else {
        match processes_scanned(procs.drop_last(), topology) {
            Err(e) => Err(e),
            Ok(infos) => match procs.last().name {
                None => Err(ScanError::Unreadable),
                Some(name) => match pid_of(name@) {
                    None => Ok(infos),
                    Some(pid) => match process_scanned(pid, procs.last().entries, topology) {
                        Err(_) => Ok(infos),
                        Ok(found) => Ok(infos.union_prefer_right(found)),
                    },
                },
            },
        }
    }
}

proof fn lemma_proc_error_stays(
    procs: Seq<ProcEntry>,
    topology: Map<(u32, u32), Seq<char>>,
    n: int,
)
    requires
        0 <= n <= procs.len(),
        processes_scanned(procs.take(n), topology) is Err,
    ensures
        processes_scanned(procs, topology) == processes_scanned(procs.take(n), topology),
    decreases procs.len(),
{
    if n == procs.len() {
        assert(procs.take(n) =~= procs);
    } else {
        assert(procs.drop_last().take(n) =~= procs.take(n));
        lemma_proc_error_stays(procs.drop_last(), topology, n);
    }
}

/// What `/proc` listed.
pub enum ProcListing {
    /// The fdinfo directory of one process.
    Process { pid: usize, entries: Option<Vec<FdEntry>> },
    /// Every entry; they are missing where `/proc` could not be opened.
    All(Option<Vec<ProcEntry>>),
}

/// What a listing of `/proc` comes to.
pub open spec fn listing_scanned(
    listing: ProcListing,
    topology: Map<(u32, u32), Seq<char>>,
) -> Result<Map<V4L2Stream, FdInfoView>, ScanError> {
    match listing {
        ProcListing::Process { pid, entries } => process_scanned(pid, entries, topology),
        ProcListing::All(None) => Err(ScanError::Unreadable),
        ProcListing::All(Some(procs)) => processes_scanned(procs@, topology),
    }
}

/// Finds V4L2 fdinfo stats for one process, or for all of them.
///
/// Errors from individual processes are ignored when all are scanned (the process may have exited
/// meanwhile); errors from a specific process are propagated.
pub fn find_all_v4l2_fdinfo(listing: &ProcListing, topology: &MediaTopology) -> (r: Scan)
    ensures
        scan_view(r) == listing_scanned(*listing, topology@),
{
    let procs: &Vec<ProcEntry> = match listing {
        ProcListing::Process { pid, entries } => {
            return find_v4l2_fdinfo_for_pid(*pid, entries, topology);
        },
        ProcListing::All(None) => {
            return Err(ScanError::Unreadable);
        },
        ProcListing::All(Some(procs)) => procs,
    };
    let mut all: StreamMap<V4l2FdInfo> = StreamMap::new();
    assert(info_views(all@) =~= Map::empty());
    let mut i: usize = 0;
    while i < procs.len()
        invariant
            i <= procs.len(),
            *listing == ProcListing::All(Some(*procs)),
            processes_scanned(procs@.take(i as int), topology@) == Ok::<
                Map<V4L2Stream, FdInfoView>,
                ScanError,
            >(info_views(all@)),
        decreases procs.len() - i,
    {
        let ghost next = procs@.take(i + 1);
        assert(next.drop_last() =~= procs@.take(i as int));
        assert(next.last() == procs@[i as int]);
        let name: &String = match &procs[i].name {
            Some(name) => name,
            None => {
                proof {
                    lemma_proc_error_stays(procs@, topology@, i + 1);
                }
                return Err(ScanError::Unreadable);
            },
        };
        if let Some(pid) = proc_pid(name.as_str()) {
            match find_v4l2_fdinfo_for_pid(pid, &procs[i].entries, topology) {
                Ok(found) => {
                    let ghost before = info_views(all@);
                    all.extend(found);
                    assert(info_views(all@) =~= before.union_prefer_right(info_views(found@)));
                },
                Err(_) => {},
            }
        }
        i += 1;
    }
    assert(procs@.take(procs.len() as int) =~= procs@);
    Ok(all)
}

/// An entry of an fdinfo directory is that of the given descriptor, and the descriptor is one of a
/// V4L2 device.
pub open spec fn is_descriptor(entry: FdEntry, fd: usize) -> bool {
    entry matches FdEntry::File { name, device, .. } && v4l2_fd_of(name@, device) == Ok::<
        Option<usize>,
        NumberError,
    >(Some(fd))
}

/// The scan of a process finds one stream for each descriptor of a V4L2 device that is listed, and
/// no other streams.
pub proof fn scan_finds_the_descriptors(
    pid: usize,
    entries: Seq<FdEntry>,
    topology: Map<(u32, u32), Seq<char>>,
    stream: V4L2Stream,
)
    requires
        entries_scanned(pid, entries, topology) is Ok,
    ensures
        entries_scanned(pid, entries, topology)->Ok_0.contains_key(stream) <==> stream.pid == pid
            && exists|i: int|
            0 <= i < entries.len() && is_descriptor(#[trigger] entries[i], stream.fd),
    decreases entries.len(),
{
    if entries.len() > 0 {
        let rest = entries.drop_last();
        scan_finds_the_descriptors(pid, rest, topology, stream);
        assert(forall|i: int| 0 <= i < rest.len() ==> #[trigger] entries[i] == rest[i]);
        let n = entries.len() - 1;
        assert(entries[n] == entries.last());
        if exists|i: int| 0 <= i < entries.len() && is_descriptor(#[trigger] entries[i], stream.fd) {
            let i = choose|i: int|
                0 <= i < entries.len() && is_descriptor(#[trigger] entries[i], stream.fd);
            if i < n {
                assert(is_descriptor(rest[i], stream.fd));
            }
        }
        if exists|i: int| 0 <= i < rest.len() && is_descriptor(#[trigger] rest[i], stream.fd) {
            let i = choose|i: int|
                0 <= i < rest.len() && is_descriptor(#[trigger] rest[i], stream.fd);
            assert(is_descriptor(entries[i], stream.fd));
        }
    }
}

/// The entry of a process that can be scanned, and whose scan finds the given stream.
pub open spec fn is_found_in(
    entry: ProcEntry,
    topology: Map<(u32, u32), Seq<char>>,
    stream: V4L2Stream,
) -> bool {
    &&& entry.name matches Some(name)
    &&& pid_of(name@) matches Some(pid)
    &&& process_scanned(pid, entry.entries, topology) matches Ok(infos)
    &&& infos.contains_key(stream)
}

/// The scan of all processes finds the streams that the scan of some process finds, and no others.
pub proof fn scan_finds_all_processes(
    procs: Seq<ProcEntry>,
    topology: Map<(u32, u32), Seq<char>>,
    stream: V4L2Stream,
)
    requires
        processes_scanned(procs, topology) is Ok,
    ensures
        processes_scanned(procs, topology)->Ok_0.contains_key(stream) <==> exists|i: int|
            0 <= i < procs.len() && is_found_in(#[trigger] procs[i], topology, stream),
    decreases procs.len(),
{
    if procs.len() > 0 {
        let rest = procs.drop_last();
        scan_finds_all_processes(rest, topology, stream);
        let n = procs.len() - 1;
        assert(procs[n] == procs.last());
        if exists|i: int| 0 <= i < procs.len() && is_found_in(#[trigger] procs[i], topology, stream) {
            let i = choose|i: int|
                0 <= i < procs.len() && is_found_in(#[trigger] procs[i], topology, stream);
            if i < n {
                assert(is_found_in(rest[i], topology, stream));
            }
        }
        if exists|i: int| 0 <= i < rest.len() && is_found_in(#[trigger] rest[i], topology, stream) {
            let i = choose|i: int|
                0 <= i < rest.len() && is_found_in(#[trigger] rest[i], topology, stream);
            assert(is_found_in(procs[i], topology, stream));
        }
    }
}

/// A process that cannot be scanned does not keep the others from being found.
pub proof fn failed_process_adds_nothing(
    procs: Seq<ProcEntry>,
    failed: ProcEntry,
    topology: Map<(u32, u32), Seq<char>>,
)
    requires
        failed.name matches Some(name) && (pid_of(name@) matches Some(pid) ==> process_scanned(
            pid,
            failed.entries,
            topology,
        ) is Err),
    ensures
        processes_scanned(procs.push(failed), topology) == processes_scanned(procs, topology),
{
    assert(procs.push(failed).drop_last() =~= procs);
}

/// A line with a colon sets a field, in place of what the key may have had: the key is what stands
/// before the first colon, the value what stands behind it, without the white space around them. No
/// other field changes.
pub proof fn later_lines_stand(lines: Seq<Seq<char>>, key: Seq<char>, value: Seq<char>)
    requires
        !key.contains(':'),
    ensures
        fdinfo_fields(lines.push(key + seq![':'] + value)) == fdinfo_fields(lines).insert(
            trimmed(key),
            trimmed(value),
        ),
        fdinfo_fields(Seq::empty()) == Map::<Seq<char>, Seq<char>>::empty(),
{
    let line = key + seq![':'] + value;
    let n = key.len() as int;
    assert forall|i: int| 0 <= i < n implies line[i] != ':' by {
        assert(line[i] == key[i]);
        assert(key.contains(key[i]));
    }
    assert(line[n] == ':');
    lemma_index_of(line, ':', n);
    assert(line.take(n) =~= key);
    assert(line.skip(n + 1) =~= value);
    assert(lines.push(line).drop_last() =~= lines);
}

/// A number written in decimal consists of digits.
proof fn lemma_decimal_is_numeric(n: nat)
    ensures
        is_numeric(decimal(n)),
    decreases n,
{
    if n >= 10 {
        lemma_decimal_is_numeric(n / 10);
    }
}

/// All fields of a descriptor are known, with their texts, its time and its driver.
pub proof fn info_views_leave_nothing_out(
    infos: Map<V4L2Stream, V4l2FdInfo>,
    stream: V4L2Stream,
    key: Seq<char>,
)
    ensures
        info_views(infos).contains_key(stream) <==> infos.contains_key(stream),
        infos.contains_key(stream) ==> {
            let info = infos[stream];
            let known = info_views(infos)[stream];
            &&& known.fields.contains_key(key) <==> info.fields@.contains_key(key)
            &&& info.fields@.contains_key(key) ==> known.fields[key] == info.fields@[key]@
            &&& known.timestamp == info.timestamp
            &&& known.driver == info.driver@
        },
{
}

/// Every descriptor of a V4L2 device is told by its number: the file with the number in decimal for
/// its name is the one about it, as long as the number is in range.
pub proof fn descriptors_are_told_by_number(fd: nat, minor: u32)
    ensures
        ({
            let device = Some(FileDevice { is_char_device: true, rdev: dev_of(81, minor) });
            v4l2_fd_of(decimal(fd), device) == if fd <= usize::MAX {
                Ok::<Option<usize>, NumberError>(Some(fd as usize))
            } else {
                Err(NumberError::TooLarge)
            }
        }),
{
    lemma_decimal_is_numeric(fd);
    v4l2_devices_have_major_81(true, 81, minor);
    numbers_read_as_themselves(0, fd, usize::MAX as u64, Seq::empty());
    assert(zeros(0) + decimal(fd) =~= decimal(fd));
    assert(zeros(0) + decimal(fd) + Seq::<char>::empty() =~= decimal(fd));
}

/// A file is about no descriptor of a V4L2 device if something but digits stands in its name, or if
/// the descriptor is not one of a char device with the major number 81.
pub proof fn other_files_are_skipped(
    name: Seq<char>,
    is_char_device: bool,
    major: u32,
    minor: u32,
    i: int,
)
    ensures
        0 <= i < name.len() && !('0' <= name[i] <= '9') ==> v4l2_fd_of(
            name,
            Some(FileDevice { is_char_device, rdev: dev_of(major, minor) }),
        ) == Ok::<Option<usize>, NumberError>(None),
        !is_char_device || major != 81 ==> v4l2_fd_of(
            name,
            Some(FileDevice { is_char_device, rdev: dev_of(major, minor) }),
        ) == Ok::<Option<usize>, NumberError>(None),
        v4l2_fd_of(name, None) == Ok::<Option<usize>, NumberError>(None),
{
    v4l2_devices_have_major_81(is_char_device, major, minor);
    if 0 <= i < name.len() && !('0' <= name[i] <= '9') {
        assert(!is_digit(name[i]));
    }
}

/// Every process is told by its number: the entry with the number in decimal for its name stands
/// for it. An entry with something but digits in its name stands for none, where that is not a plus
/// sign in front of them.
pub proof fn processes_are_told_by_number(pid: usize, c: char, rest: Seq<char>)
    ensures
        pid_of(decimal(pid as nat)) == Some(pid),
        !('0' <= c <= '9') && c != '+' ==> pid_of(seq![c] + rest) is None && pid_of(
            decimal(pid as nat) + seq![c] + rest,
        ) is None,
        pid_of(Seq::empty()) is None,
{
    numbers_read_as_themselves(0, pid as nat, usize::MAX as u64, Seq::empty());
    assert(zeros(0) + decimal(pid as nat) =~= decimal(pid as nat));
    other_texts_are_no_numbers(0, pid as nat, 'x', rest, usize::MAX as u64);
    if !('0' <= c <= '9') && c != '+' {
        other_texts_are_no_numbers(0, pid as nat, c, rest, usize::MAX as u64);
    }
}

/// What is known of a stream comes from its own file: the descriptor's fields are those of the
/// text, the time is that of the reading, and the driver is the decoder's whose node the link leads
/// to, or unknown. The streams that were found before stay.
pub proof fn descriptors_add_their_stream(
    pid: usize,
    entries: Seq<FdEntry>,
    topology: Map<(u32, u32), Seq<char>>,
    e: FdEntry,
    fd: usize,
    minor: u32,
    target: Option<(u32, u32)>,
)
    requires
        entries_scanned(pid, entries, topology) is Ok,
        e is File,
        e->name@ == decimal(fd as nat),
        e->device == Some(FileDevice { is_char_device: true, rdev: dev_of(81, minor) }),
        e->target == match target {
            Some((major, minor)) => Some(dev_of(major, minor)),
            None => None,
        },
    ensures
        entries_scanned(pid, entries.push(e), topology) == match e->text {
            Some(text) => Ok(
                entries_scanned(pid, entries, topology)->Ok_0.insert(
                    V4L2Stream { pid, fd },
                    FdInfoView {
                        fields: fdinfo_fields(lines_of(text@)),
                        timestamp: e->timestamp,
                        driver: if target is Some && topology.contains_key(target->0) {
                            topology[target->0]
                        } else {
                            "unknown"@
                        },
                    },
                ),
            ),
            None => Err(ScanError::Unreadable),
        },
{
    assert(entries.push(e).drop_last() =~= entries);
    descriptors_are_told_by_number(fd as nat, minor);
    if let Some((major, minor)) = target {
        decoders_are_looked_up_by_both_numbers(major, minor, topology);
    }
}

/// One more file in an fdinfo directory: after an error nothing counts any more, where the
/// directory could not be read on there is an error, a descriptor whose number is out of range is
/// an error, and a file that is about no V4L2 descriptor adds nothing.
pub proof fn other_files_add_nothing(
    pid: usize,
    entries: Seq<FdEntry>,
    topology: Map<(u32, u32), Seq<char>>,
    e: FdEntry,
)
    ensures
        entries_scanned(pid, entries, topology) is Err ==> entries_scanned(
            pid,
            entries.push(e),
            topology,
        ) == entries_scanned(pid, entries, topology),
        entries_scanned(pid, entries, topology) is Ok && e is Unreadable ==> entries_scanned(
            pid,
            entries.push(e),
            topology,
        ) == Err::<Map<V4L2Stream, FdInfoView>, ScanError>(ScanError::Unreadable),
        entries_scanned(pid, entries, topology) is Ok && e is File ==> match v4l2_fd_of(
            e->name@,
            e->device,
        ) {
            Ok(None) => entries_scanned(pid, entries.push(e), topology) == entries_scanned(
                pid,
                entries,
                topology,
            ),
            Err(error) => entries_scanned(pid, entries.push(e), topology) == Err::<
                Map<V4L2Stream, FdInfoView>,
                ScanError,
            >(ScanError::Number(error)),
            Ok(Some(_)) => true,
        },
        entries_scanned(pid, Seq::empty(), topology) == Ok::<
            Map<V4L2Stream, FdInfoView>,
            ScanError,
        >(Map::empty()),
{
    assert(entries.push(e).drop_last() =~= entries);
}

/// The streams of a listed process are found with all that its own scan tells of them, and the
/// streams that were found before stay.
pub proof fn processes_add_their_streams(
    procs: Seq<ProcEntry>,
    topology: Map<(u32, u32), Seq<char>>,
    p: ProcEntry,
    pid: usize,
    listed: Vec<FdEntry>,
    stream: V4L2Stream,
)
    requires
        processes_scanned(procs, topology) is Ok,
        p.name is Some,
        p.name->0@ == decimal(pid as nat),
        p.entries == Some(listed),
        entries_scanned(pid, listed@, topology) is Ok,
    ensures
        processes_scanned(procs.push(p), topology) is Ok,
        ({
            let before = processes_scanned(procs, topology)->Ok_0;
            let own = entries_scanned(pid, listed@, topology)->Ok_0;
            let after = processes_scanned(procs.push(p), topology)->Ok_0;
            &&& after.contains_key(stream) <==> own.contains_key(stream) || before.contains_key(
                stream,
            )
            &&& own.contains_key(stream) ==> after[stream] == own[stream]
            &&& before.contains_key(stream) && !own.contains_key(stream) ==> after[stream]
                == before[stream]
        }),
{
    assert(procs.push(p).drop_last() =~= procs);
    processes_are_told_by_number(pid, 'x', Seq::empty());
}

/// One more entry of `/proc`: after an error nothing counts any more, where `/proc` could not be
/// read on there is an error, and an entry that stands for no process, or for one whose directory
/// could not be opened, adds nothing.
pub proof fn other_entries_add_nothing(
    procs: Seq<ProcEntry>,
    topology: Map<(u32, u32), Seq<char>>,
    p: ProcEntry,
)
    ensures
        processes_scanned(procs, topology) is Err ==> processes_scanned(procs.push(p), topology)
            == processes_scanned(procs, topology),
        processes_scanned(procs, topology) is Ok && p.name is None ==> processes_scanned(
            procs.push(p),
            topology,
        ) == Err::<Map<V4L2Stream, FdInfoView>, ScanError>(ScanError::Unreadable),
        p.name is Some && (pid_of(p.name->0@) is None || p.entries is None) ==> processes_scanned(
            procs.push(p),
            topology,
        ) == processes_scanned(procs, topology),
        processes_scanned(Seq::empty(), topology) == Ok::<Map<V4L2Stream, FdInfoView>, ScanError>(
            Map::empty(),
        ),
{
    assert(procs.push(p).drop_last() =~= procs);
}

/// What a listing comes to is what the processes on it come to; what could not be listed is an
/// error.
pub proof fn listings_are_scanned(
    pid: usize,
    listed: Vec<FdEntry>,
    procs: Vec<ProcEntry>,
    topology: Map<(u32, u32), Seq<char>>,
)
    ensures
        listing_scanned(ProcListing::Process { pid, entries: Some(listed) }, topology)
            == entries_scanned(pid, listed@, topology),
        listing_scanned(ProcListing::Process { pid, entries: None }, topology) == Err::<
            Map<V4L2Stream, FdInfoView>,
            ScanError,
        >(ScanError::Unreadable),
        listing_scanned(ProcListing::All(Some(procs)), topology) == processes_scanned(
            procs@,
            topology,
        ),
        listing_scanned(ProcListing::All(None), topology) == Err::<
            Map<V4L2Stream, FdInfoView>,
            ScanError,
        >(ScanError::Unreadable),
{
}

} // verus!
