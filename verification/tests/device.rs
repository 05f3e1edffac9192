use v4l2top::device::{
    build_media_topology, dev_numbers, is_media_name, is_v4l2_fd, linux_major, linux_minor,
    query_media_device, resolve_decoder_name, DevEntry, FileDevice, MediaDeviceInfo, MediaReplies,
    MediaTopology, MediaV2IntfDevnode,
};

fn makedev(major: u64, minor: u64) -> u64 {
    ((major & 0xfffff000) << 32) | ((major & 0xfff) << 8) | ((minor & 0xffffff00) << 12) | (minor & 0xff)
}

fn info(driver: &[u8]) -> MediaDeviceInfo {
    let mut bytes = [0u8; 16];
    bytes[..driver.len()].copy_from_slice(driver);
    MediaDeviceInfo { driver: bytes }
}

fn replies(driver: &[u8], nodes: &[(u32, u32)]) -> MediaReplies {
    let interfaces = nodes
        .iter()
        .map(|(major, minor)| MediaV2IntfDevnode { major: *major, minor: *minor })
        .collect();
    MediaReplies { info: info(driver), interfaces }
}

#[test]
fn device_numbers_are_taken_apart() {
    assert_eq!(linux_major(0x5103), 81);
    assert_eq!(linux_minor(0x5103), 3);
    assert_eq!(linux_major(0x0123_4000_0000_0000), 0x1234000);
    assert_eq!(linux_minor(0x10_0007), 0x107);
    for (major, minor) in [(81, 0), (81, 300), (4095, 0xffffff), (4096, 1), (0xffffffff, 0xffffffff)] {
        assert_eq!(dev_numbers(makedev(major, minor)), (major as u32, minor as u32));
        assert_eq!(linux_major(makedev(major, minor)), major);
        assert_eq!(linux_minor(makedev(major, minor)), minor);
    }
    assert_eq!(linux_minor(0x105100), 256);
    assert_eq!(linux_minor(1 << 44), 0);
    assert_eq!(linux_major(1 << 44), 4096);
}

#[test]
fn different_devices_have_different_numbers() {
    let devices: Vec<u64> = (0..64).map(|i| 1u64 << i).collect();
    for a in &devices {
        for b in &devices {
            assert_eq!(a == b, dev_numbers(*a) == dev_numbers(*b));
        }
    }
}

#[test]
fn v4l2_devices_are_char_devices_with_their_major_number() {
    let rdev = makedev(81, 5);
    assert!(is_v4l2_fd(Some(FileDevice { is_char_device: true, rdev })));
    assert!(!is_v4l2_fd(Some(FileDevice { is_char_device: false, rdev })));
    assert!(!is_v4l2_fd(Some(FileDevice { is_char_device: true, rdev: makedev(82, 5) })));
    assert!(!is_v4l2_fd(None));
}

#[test]
fn driver_names_end_at_the_first_zero() {
    assert_eq!(info(b"rkvdec").driver_str(), "rkvdec");
    assert_eq!(info(b"a\0b").driver_str(), "a");
    assert_eq!(info(b"").driver_str(), "");
    assert_eq!(info(b"0123456789abcdef").driver_str(), "0123456789abcdef");
    assert_eq!(info("h\u{e9}".as_bytes()).driver_str(), "h\u{e9}");
    assert_eq!(info(&[b'a', 0xff, b'b']).driver_str(), "a\u{fffd}b");
}

#[test]
fn stateless_decoders_have_one_node() {
    let found = query_media_device(&replies(b"rkvdec", &[(81, 3), (0, 0), (81, 3)]));
    assert_eq!(found, Some(((81, 3), "rkvdec".to_string())));
    assert_eq!(query_media_device(&replies(b"cam", &[(81, 3), (81, 4)])), None);
    assert_eq!(query_media_device(&replies(b"none", &[(0, 0), (0, 0)])), None);
    assert_eq!(query_media_device(&replies(b"empty", &[])), None);
    let mut nodes = vec![(81, 0); 65];
    let many = query_media_device(&replies(b"many", &nodes));
    assert_eq!(many, Some(((81, 0), "many".to_string())));
    nodes.push((81, 1));
    assert_eq!(query_media_device(&replies(b"more", &nodes)), None);
    let half = query_media_device(&replies(b"half", &[(0, 7)]));
    assert_eq!(half, Some(((0, 7), "half".to_string())));
}

#[test]
fn media_devices_are_known_by_name() {
    assert!(is_media_name("media0"));
    assert!(is_media_name("media"));
    assert!(!is_media_name("medi"));
    assert!(!is_media_name("video0"));
    assert!(!is_media_name("mediA0"));
}

#[test]
fn topologies_hold_decoders_only() {
    let device = Some(FileDevice { is_char_device: true, rdev: 0 });
    let file = Some(FileDevice { is_char_device: false, rdev: 0 });
    let entry = |name: &str, device, replies| DevEntry { name: name.to_string(), device, replies };
    let entries = vec![
        entry("media0", device, Some(replies(b"first", &[(81, 1)]))),
        entry("video0", device, Some(replies(b"video", &[(81, 2)]))),
        entry("media1", file, Some(replies(b"file", &[(81, 3)]))),
        entry("media2", None, Some(replies(b"gone", &[(81, 4)]))),
        entry("media3", device, None),
        entry("media4", device, Some(replies(b"camera", &[(81, 5), (81, 6)]))),
        entry("media5", device, Some(replies(b"later", &[(81, 1)]))),
        entry("media6", device, Some(replies(b"hantro", &[(81, 7)]))),
    ];
    let topology = build_media_topology(&entries);
    assert_eq!(topology.get((81, 1)), Some(&"later".to_string()));
    assert_eq!(topology.get((81, 7)), Some(&"hantro".to_string()));
    for minor in [2, 3, 4, 5, 6] {
        assert_eq!(topology.get((81, minor)), None);
    }
}

#[test]
fn decoder_names_are_looked_up() {
    let mut topology = MediaTopology::new();
    topology.insert((81, 300), "rkvdec".to_string());
    assert_eq!(resolve_decoder_name(Some(makedev(81, 300)), &topology), Some("rkvdec".to_string()));
    assert_eq!(resolve_decoder_name(Some(makedev(81, 44)), &topology), None);
    assert_eq!(resolve_decoder_name(None, &topology), None);
}
