use v4l2top::codec::{
    current_or_zero, decoder_time, total_usage_of, usage_level, CodecUsage, StreamInfo, UsageLevel,
    UsageRendererType, UsageSample,
};
use v4l2top::stream::{StreamMap, V4L2Stream};
use v4l2top::v4l2_stats::{parse_fdinfo, V4l2FdInfo};

fn info(text: &str, timestamp: u64) -> V4l2FdInfo {
    V4l2FdInfo { fields: parse_fdinfo(text), timestamp, driver: "unknown".to_string() }
}

fn stream_info(usage: Option<u8>) -> StreamInfo {
    StreamInfo {
        v4l2_info: info("", 0),
        comm: "comm".to_string(),
        cmdline: "cmdline".to_string(),
        usage: CodecUsage { last_read: None, last_value_ns: None, current_usage: usage },
        mem_usage: vec![],
    }
}

fn total(usages: &[Option<u8>]) -> Option<u8> {
    let mut infos = StreamMap::new();
    for (i, usage) in usages.iter().enumerate() {
        infos.insert(V4L2Stream::new(1, i), stream_info(*usage));
    }
    total_usage_of(&infos)
}

#[test]
fn decoder_times_are_read() {
    assert_eq!(decoder_time(&info("media-engine-decoder: 1234 ns\n", 0)), Some(1234));
    assert_eq!(decoder_time(&info("media-engine-decoder: 1234\n", 0)), Some(1234));
    assert_eq!(decoder_time(&info("media-engine-decoder: 12 ns ns\n", 0)), Some(12));
    assert_eq!(decoder_time(&info("media-engine-decoder: 12ns\n", 0)), None);
    assert_eq!(decoder_time(&info("media-engine-decoder:\n", 0)), None);
    assert_eq!(decoder_time(&info("media-engine-decoder: 99999999999999999999 ns\n", 0)), None);
    assert_eq!(decoder_time(&info("pos: 1\n", 0)), Some(0));
}

#[test]
fn the_first_reading_has_no_sample() {
    let mut usage = CodecUsage::new();
    let first = info("media-engine-decoder: 100 ns\n", 10);
    assert_eq!(usage.sample(&first, 20), None);
    usage.update(&first, 20, None);
    assert_eq!(
        usage,
        CodecUsage { last_read: Some(10), last_value_ns: Some(100), current_usage: None }
    );
}

#[test]
fn later_readings_are_compared_with_the_first() {
    let mut usage = CodecUsage::new();
    usage.update(&info("media-engine-decoder: 100 ns\n", 10), 20, None);
    let second = info("media-engine-decoder: 150 ns\n", 100);
    let sample = UsageSample { last_value_ns: 100, value_ns: 150, elapsed_ns: 100 };
    assert_eq!(usage.sample(&second, 110), Some(sample));
    usage.update(&second, 110, Some(50));
    assert_eq!(
        usage,
        CodecUsage { last_read: Some(10), last_value_ns: Some(100), current_usage: Some(50) }
    );
    let third = info("media-engine-decoder: 300 ns\n", 400);
    let sample = UsageSample { last_value_ns: 100, value_ns: 300, elapsed_ns: 400 };
    assert_eq!(usage.sample(&third, 410), Some(sample));
}

#[test]
fn busy_time_is_the_difference_of_the_readings() {
    let sample = UsageSample { last_value_ns: 100, value_ns: 150, elapsed_ns: 100 };
    assert_eq!(sample.busy_ns(), Some(50));
    let idle = UsageSample { last_value_ns: 100, value_ns: 100, elapsed_ns: 100 };
    assert_eq!(idle.busy_ns(), Some(0));
    let back = UsageSample { last_value_ns: 100, value_ns: 99, elapsed_ns: 100 };
    assert_eq!(back.busy_ns(), None);
}

#[test]
fn usage_is_at_most_100() {
    for (percent, expected) in [(0, 0), (99, 99), (100, 100), (101, 100), (255, 100)] {
        let mut usage = CodecUsage::new();
        usage.update(&info("media-engine-decoder: 0 ns\n", 10), 10, None);
        let second = info("media-engine-decoder: 500 ns\n", 20);
        usage.update(&second, 20, Some(percent));
        assert_eq!(usage.current_usage, Some(expected));
        usage.update(&info("media-engine-decoder: x\n", 30), 30, None);
        assert_eq!(usage.current_usage, Some(expected));
    }
}

#[test]
fn without_time_there_is_no_sample() {
    let usage = CodecUsage { last_read: Some(10), last_value_ns: Some(1), current_usage: None };
    let reading = info("media-engine-decoder: 2 ns\n", 10);
    assert_eq!(usage.sample(&reading, 10), None);
    assert_eq!(usage.sample(&reading, 9), None);
    assert!(usage.sample(&reading, 11).is_some());
}

#[test]
fn a_text_that_is_no_number_starts_over() {
    let mut usage = CodecUsage { last_read: Some(10), last_value_ns: Some(1), current_usage: Some(7) };
    let broken = info("media-engine-decoder: x\n", 30);
    assert_eq!(usage.sample(&broken, 40), None);
    usage.update(&broken, 40, None);
    assert_eq!(
        usage,
        CodecUsage { last_read: Some(30), last_value_ns: None, current_usage: Some(7) }
    );
}

#[test]
fn shifting_twice_leads_back() {
    let mut kind = UsageRendererType::PerPid;
    kind.shift();
    assert_eq!(kind, UsageRendererType::Chart);
    kind.shift();
    assert_eq!(kind, UsageRendererType::PerPid);
}

#[test]
fn levels_change_above_50_and_80() {
    for percent in 0..=255u8 {
        let level = match percent {
            0..=50 => UsageLevel::Low,
            51..=80 => UsageLevel::Medium,
            _ => UsageLevel::High,
        };
        assert_eq!(usage_level(percent), level);
    }
}

#[test]
fn unknown_usage_counts_as_none() {
    assert_eq!(current_or_zero(&stream_info(None)), 0);
    assert_eq!(current_or_zero(&stream_info(Some(42))), 42);
}

#[test]
fn totals_end_at_255() {
    assert_eq!(total(&[]), Some(0));
    assert_eq!(total(&[Some(1), None, Some(2)]), Some(3));
    assert_eq!(total(&[Some(100), Some(100), Some(55)]), Some(255));
    assert_eq!(total(&[Some(100), Some(100), Some(56)]), None);
}
