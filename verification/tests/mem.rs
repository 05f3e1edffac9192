use v4l2top::stream::{StreamMap, V4L2Stream};
use v4l2top::text::NumberError;
use v4l2top::v4l2_mem::{
    add_line, add_lines, parse_mem_file, v4l2_mem_get_usage, DMABuffer, MemError, MemLine,
};

fn parsed(text: &str) -> Result<Vec<(V4L2Stream, Vec<(String, usize)>)>, NumberError> {
    let mut mem: StreamMap<Vec<DMABuffer>> = StreamMap::new();
    parse_mem_file(text, &mut mem).map(|()| listed(mem))
}

fn listed(mem: StreamMap<Vec<DMABuffer>>) -> Vec<(V4L2Stream, Vec<(String, usize)>)> {
    mem.into_entries()
        .into_iter()
        .map(|(s, b)| (s, b.into_iter().map(|b| (b.label, b.size)).collect()))
        .collect()
}

fn one(pid: usize, fd: usize, label: &str, size: usize) -> Vec<(V4L2Stream, Vec<(String, usize)>)> {
    vec![(V4L2Stream::new(pid, fd), vec![(label.to_string(), size)])]
}

fn line(fd: &str, pid: &str, size: &str, label: &str) -> MemLine {
    MemLine { fd: fd.to_string(), pid: pid.to_string(), size: size.to_string(), label: label.to_string() }
}

#[test]
fn buffers_are_read_from_lines() {
    assert_eq!(parsed("rkvdec 5 1234 4096 RCB buffer 1\n"), Ok(one(1234, 5, "RCB buffer 1", 4096)));
    assert_eq!(parsed("rkvdec   5  1234    4096   label  "), Ok(one(1234, 5, "label  ", 4096)));
    assert_eq!(parsed("a b 1 2 3 label"), Ok(one(2, 1, "label", 3)));
    assert_eq!(parsed("1 2 3 4 5"), Ok(one(3, 2, "5", 4)));
    assert_eq!(parsed("1 2 3 4 5 6"), Ok(one(3, 2, "5 6", 4)));
    assert_eq!(parsed(" c 1 2 3 x"), Ok(one(2, 1, "x", 3)));
    assert_eq!(parsed("c 1 2 3 \u{e9}t\u{e9}"), Ok(one(2, 1, "\u{e9}t\u{e9}", 3)));
}

#[test]
fn other_lines_are_skipped() {
    for text in ["", "creator fd pid size label", "c 1 2 3", "c 1 2 3 ", "c 1 x 3 l", "1 2 3 l", "c\t1 2 3 l"] {
        assert_eq!(parsed(text), Ok(vec![]), "{text:?}");
    }
}

#[test]
fn buffers_add_up_by_stream() {
    let text = "c 1 2 3 a\nheader\nc 1 2 4 b\r\nd 9 1 5 c\n";
    assert_eq!(
        parsed(text),
        Ok(vec![
            (V4L2Stream::new(1, 9), vec![("c".to_string(), 5)]),
            (V4L2Stream::new(2, 1), vec![("a".to_string(), 3), ("b".to_string(), 4)]),
        ])
    );
}

#[test]
fn numbers_out_of_range_are_errors() {
    let big = "99999999999999999999999999";
    assert_eq!(parsed(&format!("c {big} 1 2 l")), Err(NumberError::TooLarge));
    assert_eq!(parsed(&format!("c 1 {big} 2 l")), Err(NumberError::TooLarge));
    assert_eq!(parsed(&format!("c 1 2 {big} l")), Err(NumberError::TooLarge));
    assert_eq!(parsed("c \u{0661} 1 2 l"), Err(NumberError::InvalidDigit));
}

#[test]
fn written_buffers_are_read_back() {
    for (creator, fd, pid, size, label) in
        [("rkvdec", 0, 1, 2, "x"), ("7", usize::MAX, usize::MAX, usize::MAX, "1 2 3 4 5"), ("-", 1, 10, 100, "a  b ")]
    {
        let text = format!("{creator} {fd} {pid} {size} {label}");
        assert_eq!(parsed(&text), Ok(one(pid, fd, label, size)));
    }
}

#[test]
fn errors_leave_what_came_before() {
    let mut mem: StreamMap<Vec<DMABuffer>> = StreamMap::new();
    let lines = vec![
        Some(line("1", "2", "3", "a")),
        None,
        Some(line("4", "5", "x", "b")),
        Some(line("6", "7", "8", "c")),
    ];
    assert_eq!(add_lines(&lines, &mut mem), Err(NumberError::InvalidDigit));
    assert_eq!(
        listed(mem),
        vec![
            (V4L2Stream::new(2, 1), vec![("a".to_string(), 3)]),
            (V4L2Stream::new(5, 4), vec![]),
        ]
    );
}

#[test]
fn errors_in_the_stream_add_no_place() {
    let mut mem: StreamMap<Vec<DMABuffer>> = StreamMap::new();
    assert_eq!(add_line(&line("x", "", "3", "a"), &mut mem), Err(NumberError::Empty));
    assert_eq!(add_line(&line("x", "1", "", "a"), &mut mem), Err(NumberError::InvalidDigit));
    assert_eq!(mem.len(), 0);
    assert_eq!(add_line(&line("1", "1", "3", "a"), &mut mem), Ok(()));
    assert_eq!(mem.len(), 1);
}

#[test]
fn usage_is_collected_from_all_files() {
    let files = vec![Some("c 1 2 3 a\n".to_string()), Some("d 1 2 4 b\n".to_string())];
    let usage = v4l2_mem_get_usage(&files).map(listed);
    assert_eq!(
        usage,
        Ok(vec![(V4L2Stream::new(2, 1), vec![("a".to_string(), 3), ("b".to_string(), 4)])])
    );
    assert_eq!(v4l2_mem_get_usage(&vec![]).map(listed), Ok(vec![]));
}

#[test]
fn the_first_error_of_the_files_counts() {
    let bad = Some("c 1 99999999999999999999999999 3 a".to_string());
    let good = Some("c 1 2 3 a".to_string());
    assert_eq!(
        v4l2_mem_get_usage(&vec![good.clone(), bad.clone(), None]).err(),
        Some(MemError::Number(NumberError::TooLarge))
    );
    assert_eq!(v4l2_mem_get_usage(&vec![good, None, bad]).err(), Some(MemError::Unreadable));
}
