use v4l2top::codec::{CodecUsage, StreamInfo};
use v4l2top::history::{pool_color, LineColor, UsageHistoryRenderer, COLOR_POOL_LEN};
use v4l2top::stream::{StreamMap, V4L2Stream};
use v4l2top::v4l2_stats::{parse_fdinfo, V4l2FdInfo};

fn s(fd: usize) -> V4L2Stream {
    V4L2Stream::new(1, fd)
}

fn infos(usages: &[(usize, Option<u8>)]) -> StreamMap<StreamInfo> {
    let mut infos = StreamMap::new();
    for (fd, usage) in usages {
        let info = StreamInfo {
            v4l2_info: V4l2FdInfo {
                fields: parse_fdinfo(""),
                timestamp: 0,
                driver: "unknown".to_string(),
            },
            comm: String::new(),
            cmdline: String::new(),
            usage: CodecUsage { last_read: None, last_value_ns: None, current_usage: *usage },
            mem_usage: vec![],
        };
        infos.insert(s(*fd), info);
    }
    infos
}

#[test]
fn pool_colors_start_over() {
    let colors: Vec<LineColor> = (0..COLOR_POOL_LEN).map(pool_color).collect();
    for (i, a) in colors.iter().enumerate() {
        assert_ne!(*a, LineColor::White);
        for b in &colors[..i] {
            assert_ne!(a, b);
        }
    }
    assert_eq!(pool_color(0), LineColor::Red);
    assert_eq!(pool_color(11), LineColor::LightMagenta);
    assert_eq!(pool_color(12), LineColor::Red);
    assert_eq!(pool_color(19), LineColor::LightGreen);
}

#[test]
fn histories_start_empty() {
    let history = UsageHistoryRenderer::new(5);
    let chart = history.render();
    assert!(chart.datasets.is_empty());
    assert_eq!((chart.x_min, chart.x_max), (0, 1));
}

#[test]
fn an_empty_history_stays_as_it_is() {
    let mut history = UsageHistoryRenderer::new(5);
    history.rebuild_chart_data();
    assert!(history.chart_data.is_empty());
    assert_eq!((history.x_min, history.x_max), (0, 1));
}

#[test]
fn lines_are_stacked_and_go_in_steps() {
    let mut history = UsageHistoryRenderer::new(5);
    history.record(&infos(&[(1, Some(10)), (2, Some(20))]));
    history.record(&infos(&[(1, Some(10)), (2, Some(25))]));
    history.record(&infos(&[(2, None)]));
    assert_eq!(history.tick, 3);
    assert_eq!(history.chart_data.len(), 2);
    assert_eq!(history.chart_data[0].stream, s(1));
    assert_eq!(history.chart_data[0].points, vec![(0, 10), (1, 10), (2, 10), (2, 0)]);
    assert_eq!(history.chart_data[1].stream, s(2));
    assert_eq!(history.chart_data[1].points, vec![(0, 30), (1, 30), (1, 35), (2, 35), (2, 0)]);
}

#[test]
fn the_top_layer_is_drawn_first() {
    let mut history = UsageHistoryRenderer::new(5);
    history.record(&infos(&[(1, Some(10)), (2, Some(20))]));
    let chart = history.render();
    let names: Vec<&str> = chart.datasets.iter().map(|d| d.name.as_str()).collect();
    assert_eq!(names, vec!["1 2", "1 1"]);
    assert_eq!(chart.datasets[0].points, vec![(0, 30)]);
    assert_eq!(chart.datasets[0].color, LineColor::Green);
    assert_eq!(chart.datasets[1].color, LineColor::Red);
}

#[test]
fn the_window_has_a_fixed_width() {
    let mut history = UsageHistoryRenderer::new(3);
    history.record(&infos(&[]));
    assert_eq!((history.x_min, history.x_max), (-3, 0));
    for _ in 0..9 {
        history.record(&infos(&[(1, Some(1))]));
    }
    assert_eq!((history.x_min, history.x_max), (6, 9));
    for line in &history.chart_data {
        for (tick, _) in &line.points {
            assert!(history.x_min < *tick as i128 && *tick as i128 <= history.x_max);
        }
    }
}

#[test]
fn a_window_without_width_is_widened() {
    let mut history = UsageHistoryRenderer::new(0);
    history.record(&infos(&[]));
    history.record(&infos(&[]));
    assert_eq!((history.x_min, history.x_max), (1, 2));
    assert_eq!(history.snapshots.len(), 2);
}

#[test]
fn old_snapshots_leave() {
    let mut history = UsageHistoryRenderer::new(2);
    for i in 0..4 {
        history.record(&infos(&[(i, Some(1))]));
        assert_eq!(history.snapshots.len(), (i + 1).min(2));
    }
    let streams: Vec<V4L2Stream> = history.chart_data.iter().map(|l| l.stream).collect();
    assert_eq!(streams, vec![s(2), s(3)]);
    assert_eq!(history.snapshots[0].tick, 2);
    assert_eq!(history.snapshots[1].tick, 3);
}

#[test]
fn colors_are_reused_when_streams_are_gone() {
    let mut history = UsageHistoryRenderer::new(2);
    history.record(&infos(&[(1, Some(1)), (2, Some(2))]));
    history.record(&infos(&[(2, Some(2))]));
    history.record(&infos(&[(2, Some(2)), (3, Some(3))]));
    assert_eq!(history.pid_colors.get(&s(1)), Some(&0));
    assert_eq!(history.pid_colors.get(&s(3)), Some(&2));
    history.record(&infos(&[(2, Some(2)), (3, Some(3)), (4, Some(4))]));
    assert_eq!(history.pid_colors.get(&s(1)), None);
    assert_eq!(history.pid_colors.get(&s(4)), Some(&0));
    assert_eq!(history.pid_colors.get(&s(2)), Some(&1));
    assert_eq!(history.next_color, 3);
    assert!(history.free_colors.is_empty());
}

#[test]
fn the_pool_has_every_place_once() {
    let mut history = UsageHistoryRenderer::new(2);
    for round in 0..30usize {
        let current: Vec<(usize, Option<u8>)> =
            (0..round % 5).map(|i| (round * 7 % 11 + i, Some(1))).collect();
        let before: Vec<V4L2Stream> = history.chart_data.iter().map(|l| l.stream).collect();
        history.record(&infos(&current));
        let mut places: Vec<usize> = history.free_colors.clone();
        for i in 0..history.pid_colors.len() {
            let stream = history.pid_colors.key_at(i);
            assert!(before.contains(&stream) || current.iter().any(|(fd, _)| s(*fd) == stream));
            places.push(*history.pid_colors.value_at(i));
        }
        places.sort();
        assert_eq!(places, (0..history.next_color).collect::<Vec<usize>>());
        for stream in before {
            assert!(history.pid_colors.contains_key(&stream));
        }
    }
}

#[test]
fn streams_keep_their_colors() {
    let mut history = UsageHistoryRenderer::new(2);
    history.record(&infos(&[(5, Some(1))]));
    for i in 0..5 {
        history.record(&infos(&[(i, Some(1)), (5, Some(1))]));
        let line = history.chart_data.iter().find(|l| l.stream == s(5)).unwrap();
        assert_eq!(line.color, LineColor::Red);
    }
}

#[test]
fn streams_without_usage_have_a_line() {
    let mut history = UsageHistoryRenderer::new(2);
    history.record(&infos(&[(1, None)]));
    assert_eq!(history.chart_data[0].points, vec![(0, 0)]);
    assert_ne!(history.chart_data[0].color, LineColor::White);
}

#[test]
fn the_top_line_ends_at_the_total() {
    let mut history = UsageHistoryRenderer::new(3);
    history.record(&infos(&[(1, Some(10)), (7, Some(90))]));
    history.record(&infos(&[(1, Some(5)), (2, Some(20)), (3, None)]));
    let top = history.chart_data.last().unwrap();
    assert_eq!(top.stream, s(7));
    assert_eq!(top.points.last(), Some(&(1, 25)));
}
