use v4l2top::device::{FileDevice, MediaTopology};
use v4l2top::stream::{StreamMap, V4L2Stream};
use v4l2top::text::NumberError;
use v4l2top::v4l2_stats::{
    find_all_v4l2_fdinfo, find_v4l2_fdinfo_for_pid, is_fd_name, parse_fdinfo, proc_pid, v4l2_fd,
    FdEntry, ProcEntry, ProcListing, ScanError, V4l2FdInfo,
};

const VIDEO: Option<FileDevice> = Some(FileDevice { is_char_device: true, rdev: 0x5101 });
const OTHER: Option<FileDevice> = Some(FileDevice { is_char_device: true, rdev: 0x0101 });

fn file(name: &str, device: Option<FileDevice>, text: Option<&str>) -> FdEntry {
    FdEntry::File {
        name: name.to_string(),
        device,
        target: Some(0x5101),
        timestamp: 7,
        text: text.map(|t| t.to_string()),
    }
}

fn process(name: &str, entries: Option<Vec<FdEntry>>) -> ProcEntry {
    ProcEntry { name: Some(name.to_string()), entries }
}

fn keys(map: &StreamMap<V4l2FdInfo>) -> Vec<V4L2Stream> {
    (0..map.len()).map(|i| map.key_at(i)).collect()
}

fn error(scan: Result<StreamMap<V4l2FdInfo>, ScanError>) -> Option<ScanError> {
    scan.err()
}

#[test]
fn fdinfo_lines_become_fields() {
    let fields = parse_fdinfo("pos:\t0\nflags: 02 \nno separator\nmedia-driver : rkvdec:x\nempty:\npos: 5\n");
    assert_eq!(fields.get("pos").map(|s| s.as_str()), Some("5"));
    assert_eq!(fields.get("flags").map(|s| s.as_str()), Some("02"));
    assert_eq!(fields.get("media-driver").map(|s| s.as_str()), Some("rkvdec:x"));
    assert_eq!(fields.get("empty").map(|s| s.as_str()), Some(""));
    assert_eq!(fields.get("no separator"), None);
    assert_eq!(fields.len(), 4);
    assert_eq!(parse_fdinfo("").len(), 0);
}

#[test]
fn written_fields_are_read_back() {
    let written = [("pos", "0"), ("media-engine-decoder", "123 ns"), ("a b", "x: y")];
    let mut text = String::new();
    for (key, value) in written {
        text.push_str(key);
        text.push_str(":\t");
        text.push_str(value);
        text.push('\n');
    }
    let fields = parse_fdinfo(&text);
    assert_eq!(fields.len(), 3);
    for (key, value) in written {
        assert_eq!(fields.get(key).map(|s| s.as_str()), Some(value));
    }
}

#[test]
fn lines_without_a_colon_add_nothing() {
    assert_eq!(parse_fdinfo("nothing here\nnor there").len(), 0);
}

#[test]
fn fields_have_no_white_space_around_them() {
    let fields = parse_fdinfo("\u{3000} key\t: \u{a0}value \r\n");
    assert_eq!(fields.get("key").map(|s| s.as_str()), Some("value"));
}

#[test]
fn descriptors_have_numbers_for_names() {
    assert!(is_fd_name("0"));
    assert!(is_fd_name("123"));
    assert!(!is_fd_name("12a"));
    assert!(!is_fd_name("+1"));
    assert!(!is_fd_name("\u{0661}"));
}

#[test]
fn descriptors_of_v4l2_devices_are_picked_out() {
    assert_eq!(v4l2_fd("12", VIDEO), Ok(Some(12)));
    assert_eq!(v4l2_fd("12", OTHER), Ok(None));
    assert_eq!(v4l2_fd("12", None), Ok(None));
    assert_eq!(v4l2_fd("x", VIDEO), Ok(None));
    assert_eq!(v4l2_fd("99999999999999999999999999", VIDEO), Err(NumberError::TooLarge));
    assert_eq!(v4l2_fd("", VIDEO), Err(NumberError::Empty));
}

#[test]
fn processes_are_scanned_for_their_v4l2_descriptors() {
    let mut topology = MediaTopology::new();
    topology.insert((81, 1), "rkvdec".to_string());
    let entries = Some(vec![
        file("0", OTHER, None),
        file("9", VIDEO, Some("media-driver: rkvdec\n")),
        file("x", VIDEO, None),
        file("3", VIDEO, Some("pos: 1\n")),
    ]);
    let infos = find_v4l2_fdinfo_for_pid(42, &entries, &topology).ok().unwrap();
    assert_eq!(keys(&infos), vec![V4L2Stream::new(42, 3), V4L2Stream::new(42, 9)]);
    let info = infos.get(&V4L2Stream::new(42, 9)).unwrap();
    assert_eq!(info.driver, "rkvdec");
    assert_eq!(info.timestamp, 7);
    assert_eq!(info.fields.get("media-driver").map(|s| s.as_str()), Some("rkvdec"));

    let infos = find_v4l2_fdinfo_for_pid(42, &entries, &MediaTopology::new()).ok().unwrap();
    assert_eq!(infos.get(&V4L2Stream::new(42, 9)).unwrap().driver, "unknown");
}

#[test]
fn scans_stop_at_the_first_error() {
    let topology = MediaTopology::new();
    let unread = Some(vec![file("1", VIDEO, None), file("99999999999999999999999999", VIDEO, None)]);
    assert_eq!(error(find_v4l2_fdinfo_for_pid(1, &unread, &topology)), Some(ScanError::Unreadable));
    let number = Some(vec![file("99999999999999999999999999", VIDEO, None), FdEntry::Unreadable]);
    assert_eq!(
        error(find_v4l2_fdinfo_for_pid(1, &number, &topology)),
        Some(ScanError::Number(NumberError::TooLarge))
    );
    let broken = Some(vec![file("1", VIDEO, Some("")), FdEntry::Unreadable]);
    assert_eq!(error(find_v4l2_fdinfo_for_pid(1, &broken, &topology)), Some(ScanError::Unreadable));
    assert_eq!(error(find_v4l2_fdinfo_for_pid(1, &None, &topology)), Some(ScanError::Unreadable));
}

#[test]
fn entries_of_proc_are_processes_if_they_are_numbers() {
    assert_eq!(proc_pid("1"), Some(1));
    assert_eq!(proc_pid("self"), None);
    assert_eq!(proc_pid(""), None);
    assert_eq!(proc_pid("-1"), None);
}

#[test]
fn failing_processes_are_left_out() {
    let topology = MediaTopology::new();
    let all = ProcListing::All(Some(vec![
        process("1", Some(vec![file("4", VIDEO, Some("a: b"))])),
        process("2", None),
        process("self", Some(vec![file("5", VIDEO, Some("a: b"))])),
        process("3", Some(vec![file("6", VIDEO, None)])),
        process("4", Some(vec![file("7", VIDEO, Some("a: b"))])),
    ]));
    let infos = find_all_v4l2_fdinfo(&all, &topology).ok().unwrap();
    assert_eq!(keys(&infos), vec![V4L2Stream::new(1, 4), V4L2Stream::new(4, 7)]);
}

#[test]
fn a_single_process_may_fail() {
    let topology = MediaTopology::new();
    let one = ProcListing::Process { pid: 3, entries: Some(vec![file("6", VIDEO, Some("a: b"))]) };
    let infos = find_all_v4l2_fdinfo(&one, &topology).ok().unwrap();
    assert_eq!(keys(&infos), vec![V4L2Stream::new(3, 6)]);
    let failed = ProcListing::Process { pid: 3, entries: None };
    assert_eq!(error(find_all_v4l2_fdinfo(&failed, &topology)), Some(ScanError::Unreadable));
}

#[test]
fn proc_itself_has_to_be_readable() {
    let topology = MediaTopology::new();
    let unread = ProcListing::All(None);
    assert_eq!(error(find_all_v4l2_fdinfo(&unread, &topology)), Some(ScanError::Unreadable));
    let broken = ProcListing::All(Some(vec![
        process("1", Some(vec![])),
        ProcEntry { name: None, entries: None },
    ]));
    assert_eq!(error(find_all_v4l2_fdinfo(&broken, &topology)), Some(ScanError::Unreadable));
}
