use streamdeck::{
    bmp_header, brightness_report, create_image_header, decode_firmware_version,
    decode_key_event, fade_action, frame_command, image_packets, key_image_packets, plan_fade,
    to_device_native, CommandArg, Error, Firmware, FirmwareKind, FirmwareMini, FirmwareV1,
    FirmwareV2, FadeAction, KeyEvent,
};

/// Rebuilds a row-major RGB grid from a device-native stream.
fn grid_from_native(native: &[u8], width: usize, height: usize) -> Vec<u8> {
    let mut grid = vec![0u8; width * height * 3];
    for y in 0..height {
        for x in 0..width {
            let at = ((width - 1 - x) * height + y) * 3;
            let to = (y * width + x) * 3;
            grid[to] = native[at + 2];
            grid[to + 1] = native[at + 1];
            grid[to + 2] = native[at];
        }
    }
    grid
}

/// Joins the payloads of a transfer of `n` stream bytes.
fn joined_payloads(packets: &[Vec<u8>], n: usize, header_len: usize) -> Vec<u8> {
    let mut out = Vec::new();
    for (j, p) in packets.iter().enumerate() {
        let start = if j == 0 { header_len + 54 } else { header_len };
        let take = (n - out.len()).min(p.len() - start);
        out.extend_from_slice(&p[start..start + take]);
    }
    out
}

#[test]
fn image_header_layout() {
    let mut buf = vec![9u8; 10];
    create_image_header(&mut buf, 3, 0x0102, true, 7);
    assert_eq!(buf, vec![0x02, 0x01, 0x02, 0x01, 1, 3, 9, 9, 9, 9]);
    create_image_header(&mut buf, 6, 5, false, 7);
    assert_eq!(&buf[..6], &[0x02, 0x01, 5, 0, 0, 6]);
}

#[test]
fn native_order_of_small_grid() {
    // 2 x 2 grid, row-major RGB: (0,0) (1,0) / (0,1) (1,1)
    let pixels = vec![1, 2, 3, 4, 5, 6, 7, 8, 9, 10, 11, 12];
    let native = to_device_native(&pixels, 2, 2);
    // column 1 top to bottom, then column 0; each pixel as BGR
    assert_eq!(native, vec![6, 5, 4, 12, 11, 10, 3, 2, 1, 9, 8, 7]);
}

#[test]
fn bitmap_header_bytes() {
    let h = bmp_header();
    assert_eq!(h.len(), 54);
    assert_eq!(&h[..4], &[0x42, 0x4d, 0xf6, 0x3c]);
    assert_eq!(h[28], 0x18);
}

#[test]
fn small_transfer_packets() {
    // reports of 70 bytes with a 6-byte header: 10 stream bytes in the first,
    // 64 in each later one
    let native: Vec<u8> = (0..100u8).collect();
    let packets = image_packets(&native, 4, 70, 6);
    assert_eq!(packets.len(), 3);
    for (j, p) in packets.iter().enumerate() {
        assert_eq!(p.len(), 70);
        assert_eq!(p[0], 0x02);
        assert_eq!(p[1], 0x01);
        assert_eq!(p[2] as usize + 256 * p[3] as usize, j);
        assert_eq!(p[4], if j == 2 { 1 } else { 0 });
        assert_eq!(p[5], 4);
    }
    assert_eq!(&packets[0][6..60], &bmp_header()[..]);
    assert_eq!(&packets[0][60..70], &native[0..10]);
    assert_eq!(&packets[1][6..70], &native[10..74]);
    assert_eq!(&packets[2][6..32], &native[74..100]);
    assert!(packets[2][32..].iter().all(|&b| b == 0));
    assert_eq!(joined_payloads(&packets, 100, 6), native);
}

#[test]
fn stream_that_fits_in_first_packet() {
    let native = vec![7u8; 10];
    let packets = image_packets(&native, 1, 70, 6);
    assert_eq!(packets.len(), 1);
    assert_eq!(packets[0][4], 1);
    let native = vec![7u8; 11];
    let packets = image_packets(&native, 1, 70, 6);
    assert_eq!(packets.len(), 2);
    assert_eq!(packets[0][4], 0);
    assert_eq!(packets[1][4], 1);
    assert_eq!(packets[1][6], 7);
    assert!(packets[1][7..].iter().all(|&b| b == 0));
}

#[test]
fn empty_stream_has_no_packets() {
    let packets = image_packets(&Vec::new(), 1, 70, 6);
    assert!(packets.is_empty());
}

#[test]
fn key_image_transfer() {
    let pixels: Vec<u8> = (0..80 * 80 * 3).map(|i| (i % 251) as u8).collect();
    let packets = key_image_packets(&pixels, 2);
    // 954 bytes in the first report, 1008 in each later one
    assert_eq!(packets.len(), 20);
    let mut lasts = 0;
    for (j, p) in packets.iter().enumerate() {
        assert_eq!(p.len(), 1024);
        assert_eq!(p[2] as usize + 256 * p[3] as usize, j);
        assert_eq!(p[5], 2);
        assert!(p[6..16].iter().all(|&b| b == 0));
        if p[4] == 1 {
            lasts += 1;
            assert_eq!(j, 19);
        }
    }
    assert_eq!(lasts, 1);
    let stream = joined_payloads(&packets, 19200, 16);
    assert_eq!(stream, to_device_native(&pixels, 80, 80));
    let tail = 16 + (19200 - 954 - 18 * 1008);
    assert!(packets[19][tail..].iter().all(|&b| b == 0));
}

#[test]
fn round_trip_through_packets() {
    let (w, h) = (5usize, 3usize);
    let pixels: Vec<u8> = (0..(w * h * 3) as u8).map(|b| b.wrapping_mul(7)).collect();
    let native = to_device_native(&pixels, w, h);
    let packets = image_packets(&native, 1, 70, 6);
    let stream = joined_payloads(&packets, w * h * 3, 6);
    assert_eq!(grid_from_native(&stream, w, h), pixels);
}

#[test]
fn command_padded_to_report_size() {
    let r = frame_command(17, &vec![0x0b, 0x63], None).unwrap();
    let mut want = vec![0u8; 17];
    want[0] = 0x0b;
    want[1] = 0x63;
    assert_eq!(r, want);
    let r = frame_command(8, &vec![1, 2], Some(CommandArg::Vec(vec![3, 4, 5]))).unwrap();
    assert_eq!(r, vec![1, 2, 3, 4, 5, 0, 0, 0]);
    let r = frame_command(3, &vec![1, 2], Some(CommandArg::Single(9))).unwrap();
    assert_eq!(r, vec![1, 2, 9]);
}

#[test]
fn command_too_large() {
    assert_eq!(
        frame_command(3, &vec![1, 2, 3], Some(CommandArg::Single(9))),
        Err(Error::CommandSizeError)
    );
    assert_eq!(
        frame_command(17, &vec![0; 18], None),
        Err(Error::CommandSizeError)
    );
    assert_eq!(
        frame_command(17, &vec![1, 2], Some(CommandArg::Vec(vec![0; 16]))),
        Err(Error::CommandSizeError)
    );
}

#[test]
fn brightness_saturates() {
    let r = brightness_report(FirmwareKind::Mini, 40);
    assert_eq!(r.len(), 17);
    assert_eq!(&r[..6], &[0x05, 0x55, 0xaa, 0xd1, 0x01, 40]);
    assert!(r[6..].iter().all(|&b| b == 0));
    assert_eq!(
        brightness_report(FirmwareKind::V1, 150),
        brightness_report(FirmwareKind::V1, 100)
    );
    assert_eq!(brightness_report(FirmwareKind::V1, 150)[5], 100);
    assert_eq!(brightness_report(FirmwareKind::V2, 255).len(), 32);
}

#[test]
fn fade_twenty_to_eighty() {
    let plan = plan_fade(20, 80, 1000, 10);
    assert_eq!(plan.interval_ms, 100);
    assert_eq!(plan.levels, vec![20, 26, 32, 38, 44, 50, 56, 62, 68, 74]);
    assert_eq!(plan.end, 80);
    assert!(plan.levels.windows(2).all(|w| w[0] <= w[1]));
}

#[test]
fn fade_clamps_inputs() {
    let plan = plan_fade(150, 30, 1000, 0);
    assert_eq!(plan.levels, vec![100]);
    assert_eq!(plan.end, 100);
    assert_eq!(plan.interval_ms, 1000);
    let plan = plan_fade(50, 20, 500, 5);
    assert_eq!(plan.levels, vec![50; 5]);
    assert_eq!(plan.end, 50);
    let plan = plan_fade(0, 3, 1000, 255);
    assert_eq!(plan.levels.len(), 250);
    assert!(plan.levels.iter().all(|&l| l == 0));
    assert_eq!(plan.interval_ms, 4);
    assert_eq!(plan.end, 3);
}

#[test]
fn key_events() {
    assert_eq!(decode_key_event(&vec![]), KeyEvent::NoData);
    assert_eq!(decode_key_event(&vec![1, 0, 0, 1, 1]), KeyEvent::Pressed(3));
    assert_eq!(decode_key_event(&vec![1, 0, 2, 0]), KeyEvent::Released);
    assert_eq!(decode_key_event(&vec![0]), KeyEvent::Released);
}

#[test]
fn firmware_profiles() {
    assert_eq!(FirmwareV1::get_firmware_version_offset(), 5);
    assert_eq!(FirmwareMini::get_firmware_version_offset(), 5);
    assert_eq!(FirmwareV2::get_firmware_version_offset(), 6);
    assert_eq!(FirmwareV2::kind(), FirmwareKind::V2);
    assert_eq!(FirmwareKind::V1.feature_report_size(), 17);
    assert_eq!(FirmwareKind::V2.feature_report_size(), 32);
    assert_eq!(FirmwareKind::Mini.version_offset(), 5);
}

#[test]
fn firmware_version_text() {
    let mut report = vec![4u8, 0x55, 0xaa, 0xd4, 0x04];
    report.extend_from_slice(b"1.0.0");
    assert_eq!(decode_firmware_version(&report, 5), "1.0.0");
    assert_eq!(decode_firmware_version(&report, 10), "");
    assert_eq!(decode_firmware_version(&vec![0, 0xff, b'a'], 1), "\u{fffd}a");
}

#[test]
fn fade_steps_in_order() {
    let plan = plan_fade(20, 80, 1000, 10);
    let mut writes = Vec::new();
    let mut step = 0;
    loop {
        match fade_action(&plan, step, false) {
            FadeAction::Write(level) => writes.push(level),
            FadeAction::Finish(level) => {
                writes.push(level);
                break;
            }
            FadeAction::Stop => break,
        }
        step += 1;
    }
    assert_eq!(writes, vec![20, 26, 32, 38, 44, 50, 56, 62, 68, 74, 80]);
    assert_eq!(fade_action(&plan, 11, false), FadeAction::Stop);
    assert_eq!(fade_action(&plan, 3, true), FadeAction::Stop);
}
