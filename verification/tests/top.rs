use v4l2top::codec::{CodecUsage, UsageRendererType, UsageSample};
use v4l2top::stream::{StreamMap, V4L2Stream};
use v4l2top::text::NumberError;
use v4l2top::top::{
    command_for, read_proc_text, Command, Key, Screen, StreamReading, TopRenderer, UpdateError,
    UsageView,
};
use v4l2top::v4l2_mem::{DMABuffer, MemError};
use v4l2top::v4l2_stats::{parse_fdinfo, ScanError, V4l2FdInfo};

fn s(fd: usize) -> V4L2Stream {
    V4L2Stream::new(1, fd)
}

fn reading(time: &str, now: u64, percent: Option<u8>) -> StreamReading {
    let text = format!("media-driver: rkvdec\nmedia-engine-decoder: {time} ns\n");
    StreamReading {
        info: V4l2FdInfo {
            fields: parse_fdinfo(&text),
            timestamp: now,
            driver: "unknown".to_string(),
        },
        comm: Some("gst\n".to_string()),
        cmdline: None,
        now,
        percent,
    }
}

fn buffers(size: usize) -> StreamMap<Vec<DMABuffer>> {
    let mut mem = StreamMap::new();
    mem.insert(s(1), vec![DMABuffer { label: "RCB".to_string(), size }]);
    mem.insert(s(9), vec![DMABuffer { label: "other".to_string(), size }]);
    mem
}

fn found(readings: Vec<(usize, StreamReading)>) -> Result<StreamMap<StreamReading>, ScanError> {
    let mut found = StreamMap::new();
    for (fd, reading) in readings {
        found.insert(s(fd), reading);
    }
    Ok(found)
}

fn with_two_streams() -> TopRenderer {
    let mut top = TopRenderer::new();
    let readings = found(vec![(1, reading("100", 10, None)), (2, reading("0", 10, None))]);
    assert_eq!(top.update_data(readings, &Ok(buffers(4096))), Ok(()));
    top
}

fn rows(screen: &Screen) -> Vec<Vec<String>> {
    screen.table.rows.clone()
}

#[test]
fn files_of_proc_fit_on_a_line() {
    assert_eq!(read_proc_text(&Some("gst-launch\n".to_string())), "gst-launch");
    assert_eq!(read_proc_text(&Some("a\0b\0c\0".to_string())), "a b c ");
    assert_eq!(read_proc_text(&Some("  ".to_string())), "");
    assert_eq!(read_proc_text(&None), "unknown");
}

#[test]
fn new_streams_are_added() {
    let top = with_two_streams();
    assert_eq!(top.infos.len(), 2);
    let info = top.infos.get(&s(1)).unwrap();
    assert_eq!(info.comm, "gst");
    assert_eq!(info.cmdline, "unknown");
    assert_eq!(
        info.usage,
        CodecUsage { last_read: Some(10), last_value_ns: Some(100), current_usage: None }
    );
    assert_eq!(info.mem_usage.len(), 1);
    assert_eq!((info.mem_usage[0].label.as_str(), info.mem_usage[0].size), ("RCB", 4096));
    assert!(top.infos.get(&s(2)).unwrap().mem_usage.is_empty());
    assert!(!top.infos.contains_key(&s(9)));
}

#[test]
fn known_streams_are_updated_and_closed_ones_removed() {
    let mut top = with_two_streams();
    let mut second = reading("150", 110, Some(50));
    second.comm = Some("renamed".to_string());
    assert_eq!(
        top.sample(&s(1), &second.info, 110),
        Some(UsageSample { last_value_ns: 100, value_ns: 150, elapsed_ns: 100 })
    );
    assert_eq!(top.sample(&s(3), &second.info, 110), None);
    let readings = found(vec![(1, second), (3, reading("7", 110, None))]);
    assert_eq!(top.update_data(readings, &Ok(buffers(1))), Ok(()));
    assert_eq!(top.infos.len(), 2);
    assert!(!top.infos.contains_key(&s(2)));
    let info = top.infos.get(&s(1)).unwrap();
    assert_eq!(info.comm, "gst");
    assert_eq!(info.v4l2_info.timestamp, 10);
    assert_eq!(info.usage.current_usage, Some(50));
    assert_eq!(info.usage.last_read, Some(10));
    assert_eq!(info.mem_usage[0].size, 1);
    assert_eq!(top.infos.get(&s(3)).unwrap().usage.last_value_ns, Some(7));
}

#[test]
fn errors_change_nothing() {
    let mut top = with_two_streams();
    assert_eq!(
        top.update_data(Err(ScanError::Unreadable), &Err(MemError::Unreadable)),
        Err(UpdateError::Stats(ScanError::Unreadable))
    );
    assert_eq!(
        top.update_data(found(vec![]), &Err(MemError::Number(NumberError::TooLarge))),
        Err(UpdateError::Mem(MemError::Number(NumberError::TooLarge)))
    );
    assert_eq!(top.infos.len(), 2);
    assert_eq!(top.infos.get(&s(1)).unwrap().mem_usage[0].size, 4096);
}

#[test]
fn errors_are_put_in_words() {
    let stats = |e| UpdateError::Stats(e);
    assert_eq!(
        stats(ScanError::Unreadable).message("No such file"),
        "Error fetching V4L2 stats: No such file"
    );
    assert_eq!(
        stats(ScanError::Number(NumberError::InvalidDigit)).message(""),
        "Error fetching V4L2 stats: invalid digit found in string"
    );
    assert_eq!(UpdateError::Mem(MemError::Unreadable).message("denied"), "denied");
    assert_eq!(
        UpdateError::Mem(MemError::Number(NumberError::TooLarge)).message(""),
        "number too large to fit in target type"
    );
}

#[test]
fn keys_ask_for_commands() {
    for (key, control, command) in [
        (Key::Char('q'), false, Command::Quit),
        (Key::Char('q'), true, Command::Quit),
        (Key::Char('c'), true, Command::Quit),
        (Key::Char('c'), false, Command::Nothing),
        (Key::Char('x'), true, Command::Nothing),
        (Key::F(1), false, Command::Nothing),
        (Key::F(2), false, Command::ShiftUsageRenderer),
        (Key::F(3), false, Command::FlipShowBytes),
        (Key::F(4), false, Command::FlipFullCmd),
        (Key::F(5), false, Command::Nothing),
        (Key::Up, false, Command::SelectPrevious),
        (Key::Down, false, Command::SelectNext),
        (Key::Other, false, Command::Nothing),
    ] {
        assert_eq!(command_for(key, control), command);
    }
}

#[test]
fn keys_lead_back_when_pressed_again() {
    let mut top = with_two_streams();
    assert!(top.handle(Key::F(2), false));
    assert_eq!(top.usage_renderer, UsageRendererType::Chart);
    assert!(top.handle(Key::F(3), false));
    assert!(top.table_renderer.show_bytes);
    assert!(top.handle(Key::F(4), false));
    assert!(top.table_renderer.full_cmd);
    for n in [2, 3, 4] {
        assert!(top.handle(Key::F(n), false));
    }
    assert_eq!(top.usage_renderer, UsageRendererType::PerPid);
    assert!(!top.table_renderer.show_bytes);
    assert!(!top.table_renderer.full_cmd);
    assert!(top.handle(Key::Down, false));
    assert_eq!(top.table_renderer.selected, Some(1));
    assert!(top.handle(Key::Up, false));
    assert_eq!(top.table_renderer.selected, Some(0));
    assert!(!top.handle(Key::Char('q'), false));
}

#[test]
fn keys_leave_the_streams_alone() {
    let mut top = with_two_streams();
    for key in [Key::F(2), Key::F(3), Key::F(4), Key::Up, Key::Down, Key::Char('z')] {
        top.handle(key, false);
    }
    assert_eq!(top.infos.len(), 2);
    assert_eq!(top.usage_history.tick, 0);
    assert_eq!(top.stream_bars.slots, [None; 12]);
}

#[test]
fn screens_show_bars_at_first() {
    let mut top = with_two_streams();
    let readings = found(vec![(1, reading("150", 110, Some(50))), (2, reading("0", 110, Some(0)))]);
    assert_eq!(top.update_data(readings, &Ok(buffers(4096))), Ok(()));
    assert!(top.is_drawable());
    let screen = top.render();
    match &screen.usage {
        UsageView::PerPid(bars) => {
            let bar = bars.rows[0][0].as_ref().unwrap();
            assert_eq!((bar.percent, bar.bold), (50, false));
            assert_eq!(bars.total, "Total usage:  50%");
        }
        UsageView::Chart(_) => panic!("a chart was drawn"),
    }
    assert_eq!(
        rows(&screen),
        vec![
            vec!["rkvdec", "1", "1", "unknown", "4K", "gst"],
            vec!["rkvdec", "1", "2", "unknown", "0B", "gst"],
        ]
    );
    assert_eq!(screen.selected, Some(0));
    assert_eq!(
        top.render_mem_details(screen.selected),
        vec![("RCB".to_string(), "4K".to_string())]
    );
    match top.render().usage {
        UsageView::PerPid(bars) => assert!(bars.rows[0][0].as_ref().unwrap().bold),
        UsageView::Chart(_) => panic!("a chart was drawn"),
    }
}

#[test]
fn screens_show_the_chart() {
    let mut top = with_two_streams();
    top.shift_usage_renderer();
    top.show_bytes_flip();
    top.full_cmd_flip();
    let screen = top.render();
    match &screen.usage {
        UsageView::Chart(chart) => {
            assert_eq!(chart.datasets.len(), 2);
            assert_eq!((chart.x_min, chart.x_max), (-300, 0));
        }
        UsageView::PerPid(_) => panic!("bars were drawn"),
    }
    assert_eq!(rows(&screen)[0], vec!["rkvdec", "1", "1", "unknown", "4096 B", "unknown"]);
    assert_eq!(top.usage_history.tick, 1);
    assert_eq!(top.stream_bars.slots, [None; 12]);
}

#[test]
fn corrected_selections_are_kept() {
    let mut top = with_two_streams();
    for _ in 0..5 {
        top.select_next();
    }
    let screen = top.render();
    assert_eq!(screen.selected, Some(5));
    assert!(top.render_mem_details(Some(1)).is_empty());
    assert_eq!(top.table_renderer.selected, Some(1));
    top.select_previous();
    assert_eq!(top.render_mem_details(top.table_renderer.selected).len(), 1);
}

#[test]
fn sums_out_of_range_cannot_be_drawn() {
    let mut top = TopRenderer::new();
    assert!(top.is_drawable());
    let first = (1..4).map(|fd| (fd, reading("0", 10, None))).collect();
    assert_eq!(top.update_data(found(first), &Ok(StreamMap::new())), Ok(()));
    let second = (1..4).map(|fd| (fd, reading("90", 110, Some(90)))).collect();
    assert_eq!(top.update_data(found(second), &Ok(StreamMap::new())), Ok(()));
    assert!(!top.is_drawable());
    top.shift_usage_renderer();
    assert!(top.is_drawable());
    top.shift_usage_renderer();
    for (percent, drawable) in [(50, true), (51, false)] {
        let readings = found(vec![
            (1, reading("90", 110, Some(50))),
            (2, reading("90", 110, Some(percent))),
        ]);
        assert_eq!(top.update_data(readings, &Ok(StreamMap::new())), Ok(()));
        assert_eq!(top.is_drawable(), drawable);
    }
    top.shift_usage_renderer();

    let mut mem = StreamMap::new();
    let huge = || DMABuffer { label: "huge".to_string(), size: usize::MAX };
    mem.insert(s(1), vec![huge(), huge()]);
    let third = (1..3).map(|fd| (fd, reading("90", 110, Some(90)))).collect();
    assert_eq!(top.update_data(found(third), &Ok(mem)), Ok(()));
    assert!(!top.is_drawable());
}
