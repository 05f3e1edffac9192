use v4l2top::codec::{CodecUsage, StreamInfo};
use v4l2top::stream::{StreamMap, V4L2Stream};
use v4l2top::table::{check_memory, total_memory, StreamTableRenderer};
use v4l2top::v4l2_mem::DMABuffer;
use v4l2top::v4l2_stats::{parse_fdinfo, V4l2FdInfo};

fn buffer(label: &str, size: usize) -> DMABuffer {
    DMABuffer { label: label.to_string(), size }
}

fn info(fields: &str, buffers: Vec<DMABuffer>) -> StreamInfo {
    StreamInfo {
        v4l2_info: V4l2FdInfo {
            fields: parse_fdinfo(fields),
            timestamp: 0,
            driver: "resolved".to_string(),
        },
        comm: "gst".to_string(),
        cmdline: "gst --play".to_string(),
        usage: CodecUsage::new(),
        mem_usage: buffers,
    }
}

fn two_streams() -> StreamMap<StreamInfo> {
    let mut infos = StreamMap::new();
    infos.insert(
        V4L2Stream::new(20, 3),
        info(
            "media-driver: rkvdec\nmedia-curfreq-decoder: 800 MHz\n",
            vec![buffer("a", 1024), buffer("b", 1024)],
        ),
    );
    infos.insert(V4L2Stream::new(4, 30), info("", vec![]));
    infos
}

#[test]
fn memory_adds_up_within_bounds() {
    assert_eq!(total_memory(&vec![]), Some(0));
    assert_eq!(total_memory(&vec![buffer("a", 1), buffer("b", 2)]), Some(3));
    assert_eq!(total_memory(&vec![buffer("a", usize::MAX), buffer("b", 0)]), Some(usize::MAX));
    assert_eq!(total_memory(&vec![buffer("a", usize::MAX), buffer("b", 1)]), None);
}

#[test]
fn memory_is_checked_for_every_stream() {
    let mut infos = two_streams();
    assert!(check_memory(&infos));
    infos.insert(
        V4L2Stream::new(1, 1),
        info("", vec![buffer("a", usize::MAX), buffer("b", 1)]),
    );
    assert!(!check_memory(&infos));
}

#[test]
fn tables_have_a_row_for_each_stream() {
    let mut table = StreamTableRenderer::new();
    let view = table.render(&two_streams());
    assert_eq!(
        view.columns,
        vec!["Driver", "PID", "FD", "Clock rate", "Total Memory", "Command"]
    );
    assert_eq!(view.widths, vec![12, 12, 12, 12, 12, 40]);
    assert_eq!(
        view.rows,
        vec![
            vec!["unknown", "4", "30", "unknown", "0B", "gst"],
            vec!["rkvdec", "20", "3", "800 MHz", "2K", "gst"],
        ]
    );
    assert_eq!(view.footer, "Total V4L2 FDs: 2");
    assert_eq!(table.keys, vec![V4L2Stream::new(4, 30), V4L2Stream::new(20, 3)]);
}

#[test]
fn tables_show_sizes_in_full_and_whole_commands() {
    let mut table = StreamTableRenderer::new();
    table.show_bytes_flip();
    table.full_cmd = true;
    let view = table.render(&two_streams());
    assert_eq!(view.rows[1], vec!["rkvdec", "20", "3", "800 MHz", "2048 B", "gst --play"]);
    table.show_bytes_flip();
    assert_eq!(table.render(&two_streams()).rows[1][4], "2K");
}

#[test]
fn selections_follow_the_rows() {
    let mut table = StreamTableRenderer::new();
    assert_eq!(table.selected_stream(), None);
    table.render(&two_streams());
    assert_eq!(table.selected_stream(), Some(V4L2Stream::new(4, 30)));
    table.select_next();
    assert_eq!(table.selected_stream(), Some(V4L2Stream::new(20, 3)));
    table.select_next();
    assert_eq!(table.selected, Some(2));
    assert_eq!(table.selected_stream(), None);
    table.select(None);
    assert_eq!(table.selected_stream(), None);
}

#[test]
fn selections_stop_at_the_ends() {
    let mut table = StreamTableRenderer::new();
    table.select_previous();
    assert_eq!(table.selected, Some(0));
    table.select_next();
    assert_eq!(table.selected, Some(1));
    table.select_previous();
    assert_eq!(table.selected, Some(0));
    table.select(Some(usize::MAX));
    table.select_next();
    assert_eq!(table.selected, Some(usize::MAX));
    table.select_previous();
    assert_eq!(table.selected, Some(usize::MAX - 1));
    table.select(None);
    table.select_next();
    assert_eq!(table.selected, Some(0));
    table.select(None);
    table.select_previous();
    assert_eq!(table.selected, Some(usize::MAX));
}

#[test]
fn buffers_of_the_selected_stream_are_listed() {
    let infos = two_streams();
    let mut table = StreamTableRenderer::new();
    table.render(&infos);
    assert!(table.render_mem_details(&infos).is_empty());
    table.select(Some(1));
    let rows = table.render_mem_details(&infos);
    let expected = |a: &str, b: &str| (a.to_string(), b.to_string());
    assert_eq!(rows, vec![expected("a", "1K"), expected("b", "1K")]);
    table.show_bytes_flip();
    let rows = table.render_mem_details(&infos);
    assert_eq!(rows[0], expected("a", "1024 B"));
    table.select(Some(2));
    assert!(table.render_mem_details(&infos).is_empty());
}
