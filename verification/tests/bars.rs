use v4l2top::bars::{StreamBarRenderer, BAR_COLS, BAR_ROWS, NUM_BARS};
use v4l2top::codec::{CodecUsage, StreamInfo, UsageLevel};
use v4l2top::stream::{StreamMap, V4L2Stream};
use v4l2top::v4l2_stats::{parse_fdinfo, V4l2FdInfo};

fn s(fd: usize) -> V4L2Stream {
    V4L2Stream::new(1, fd)
}

fn infos(usages: &[(usize, Option<u8>)]) -> StreamMap<StreamInfo> {
    let mut infos = StreamMap::new();
    for (fd, usage) in usages {
        let info = StreamInfo {
            v4l2_info: V4l2FdInfo {
                fields: parse_fdinfo(""),
                timestamp: 0,
                driver: "unknown".to_string(),
            },
            comm: String::new(),
            cmdline: String::new(),
            usage: CodecUsage { last_read: None, last_value_ns: None, current_usage: *usage },
            mem_usage: vec![],
        };
        infos.insert(s(*fd), info);
    }
    infos
}

fn slots(bars: &StreamBarRenderer) -> Vec<Option<usize>> {
    bars.slots.iter().map(|slot| slot.map(|s| s.fd)).collect()
}

fn first(bars: &StreamBarRenderer, n: usize) -> Vec<Option<usize>> {
    slots(bars)[..n].to_vec()
}

#[test]
fn bars_start_empty() {
    let bars = StreamBarRenderer::new();
    assert_eq!(slots(&bars), vec![None; NUM_BARS]);
    assert_eq!(bars.assignments, [(None, 0); 12]);
    assert_eq!(bars.usage, 0);
    assert_eq!(bars.selected, None);
}

#[test]
fn streams_are_ranked_by_usage() {
    let mut bars = StreamBarRenderer::new();
    bars.update(&infos(&[(1, Some(10)), (2, Some(30)), (3, None), (4, Some(20)), (5, Some(30))]), None);
    assert_eq!(first(&bars, 5), vec![Some(2), Some(5), Some(4), Some(1), None]);
    assert_eq!(bars.assignments[0], (Some(s(2)), 30));
    assert_eq!(bars.assignments[3], (Some(s(1)), 10));
    assert_eq!(bars.assignments[4], (None, 0));
    assert_eq!(bars.usage, 90);
}

#[test]
fn streams_keep_their_slots() {
    let mut bars = StreamBarRenderer::new();
    bars.update(&infos(&[(1, Some(30)), (2, Some(20)), (3, Some(10))]), None);
    assert_eq!(first(&bars, 4), vec![Some(1), Some(2), Some(3), None]);
    bars.update(&infos(&[(1, Some(1)), (3, Some(50)), (4, Some(60)), (5, Some(9))]), None);
    assert_eq!(first(&bars, 5), vec![Some(1), Some(4), Some(3), Some(5), None]);
    assert_eq!(bars.assignments[0], (Some(s(1)), 1));
    assert_eq!(bars.assignments[2], (Some(s(3)), 50));
}

#[test]
fn streams_without_usage_lose_their_slots() {
    let mut bars = StreamBarRenderer::new();
    bars.update(&infos(&[(1, Some(30))]), None);
    bars.update(&infos(&[(1, None)]), None);
    assert_eq!(slots(&bars), vec![None; NUM_BARS]);
}

#[test]
fn only_the_busiest_streams_are_shown() {
    let mut bars = StreamBarRenderer::new();
    let mut usages: Vec<(usize, Option<u8>)> = (0..14).map(|i| (i, Some(i as u8 + 1))).collect();
    bars.update(&infos(&usages), None);
    let expected: Vec<Option<usize>> = (2..14).rev().map(Some).collect();
    assert_eq!(slots(&bars), expected);
    assert_eq!(bars.usage, 105);

    usages[0].1 = Some(40);
    bars.update(&infos(&usages), None);
    let mut expected = expected;
    expected[11] = Some(0);
    assert_eq!(slots(&bars), expected);
}

#[test]
fn bars_have_labels() {
    let mut bars = StreamBarRenderer::new();
    bars.update(&infos(&[(7, Some(81)), (12, Some(9))]), Some(s(12)));
    let view = bars.render();
    assert_eq!(view.rows.len(), BAR_ROWS);
    assert!(view.rows.iter().all(|row| row.len() == BAR_COLS));
    let bar = view.rows[0][0].as_ref().unwrap();
    assert_eq!(bar.label, "        1(     7):  81%");
    assert_eq!(bar.label, format!("{:>9}({:>6}): {:>3}%", 1, 7, 81));
    assert_eq!((bar.percent, bar.level, bar.bold), (81, UsageLevel::High, false));
    let bar = view.rows[0][1].as_ref().unwrap();
    assert_eq!(bar.label, "        1(    12):   9%");
    assert_eq!((bar.percent, bar.level, bar.bold), (9, UsageLevel::Low, true));
    assert!(view.rows[1][0].is_none());
    assert_eq!(view.total, "Total usage:  90%");
    assert_eq!((view.total_usage, view.total_level), (90, UsageLevel::High));
}

#[test]
fn totals_are_drawn_up_to_100() {
    let mut bars = StreamBarRenderer::new();
    bars.update(&infos(&[(1, Some(51)), (2, Some(49))]), None);
    let view = bars.render();
    assert_eq!(view.rows[0][0].as_ref().unwrap().level, UsageLevel::Medium);
    assert_eq!(view.total, "Total usage: 100%");
    assert_eq!(view.total_usage, 100);
}

#[test]
fn bars_stand_row_by_row() {
    let mut bars = StreamBarRenderer::new();
    let usages: Vec<(usize, Option<u8>)> = (0..12).map(|i| (i, Some(12 - i as u8))).collect();
    bars.update(&infos(&usages), None);
    let view = bars.render();
    for (i, bar) in view.rows.iter().flatten().enumerate() {
        assert_eq!(bar.as_ref().unwrap().percent, 12 - i as u8);
    }
    assert_eq!(view.total, "Total usage:  78%");
}

#[test]
fn total_usage_is_at_least_100() {
    let mut bars = StreamBarRenderer::new();
    assert_eq!(bars.total_usage(), 100);
    bars.update(&infos(&[(1, Some(100)), (2, Some(30))]), None);
    assert_eq!(bars.total_usage(), 130);
}
