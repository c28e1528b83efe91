use rmstream::devices::{Device, DigitizerOrientation, PixelFormat};
use rmstream::stream::{FrameOutcome, FrameStreamer};

fn small_bgra_device() -> Device {
    Device {
        width: 4,
        height: 1,
        fb_size: 16,
        pixel_format: PixelFormat::Bgra,
        digitizer_path: "/dev/input/event2",
        digitizer_orientation: DigitizerOrientation::Identity,
        max_digitizer_width: 6760,
        max_digitizer_height: 11960,
    }
}

fn inflate(compressed: &[u8]) -> Vec<u8> {
    let mut decoder = flate2::read::DeflateDecoder::new(compressed);
    let mut out = Vec::new();
    std::io::Read::read_to_end(&mut decoder, &mut out).unwrap();
    out
}

fn be32(v: u32) -> Vec<u8> {
    vec![(v >> 24) as u8, (v >> 16) as u8, (v >> 8) as u8, v as u8]
}

fn decode_png_rgba(png_bytes: &[u8]) -> (u32, u32, Vec<u8>) {
    let decoder = png::Decoder::new(std::io::Cursor::new(png_bytes));
    let mut reader = decoder.read_info().unwrap();
    let mut buf = vec![0u8; reader.output_buffer_size().unwrap()];
    let info = reader.next_frame(&mut buf).unwrap();
    buf.truncate(info.buffer_size());
    (info.width, info.height, buf)
}

#[test]
fn baseline_delta_first_three_pixels() {
    // Baseline all zeros; runs are byte-granular, so every maximal region of
    // nonzero translated bytes becomes its own run.
    let mut streamer = FrameStreamer::new(small_bgra_device());
    let raw: Vec<u8> = vec![
        0x00, 0x00, 0xFF, 0xFF, 0x00, 0xFF, 0x00, 0xFF, 0xFF, 0x00, 0x00, 0xFF, 0x00, 0x00, 0x00,
        0x00,
    ];
    match streamer.process_frame(&raw) {
        FrameOutcome::Delta(packet) => {
            assert_eq!(packet[0], 0x01);
            let uncompressed_len = &packet[1..5];
            let payload = inflate(&packet[5..]);
            // The four length bytes hold the uncompressed payload length.
            assert_eq!(uncompressed_len, be32(payload.len() as u32).as_slice());
            let mut expected = Vec::new();
            for (offset, data) in [
                (0u32, vec![0xFFu8]),
                (3, vec![0xFF]),
                (5, vec![0xFF]),
                (7, vec![0xFF]),
                (10, vec![0xFF, 0xFF]),
            ] {
                expected.extend_from_slice(&be32(offset));
                expected.extend_from_slice(&be32(data.len() as u32));
                expected.extend_from_slice(&data);
            }
            assert_eq!(payload, expected);
        },
        _ => panic!("expected a delta frame"),
    }
    let expected_frame: Vec<u8> = vec![
        0xFF, 0x00, 0x00, 0xFF, 0x00, 0xFF, 0x00, 0xFF, 0x00, 0x00, 0xFF, 0xFF, 0x00, 0x00, 0x00,
        0x00,
    ];
    assert_eq!(streamer.last_broadcast_rgba, expected_frame);
}

#[test]
fn baseline_delta_with_opaque_last_pixel() {
    // With an opaque fourth source pixel the alpha byte differs too, so the
    // encoder emits one more one-byte run at the last index.
    let mut streamer = FrameStreamer::new(small_bgra_device());
    let raw: Vec<u8> = vec![
        0x00, 0x00, 0xFF, 0xFF, 0x00, 0xFF, 0x00, 0xFF, 0xFF, 0x00, 0x00, 0xFF, 0x00, 0x00, 0x00,
        0xFF,
    ];
    match streamer.process_frame(&raw) {
        FrameOutcome::Delta(packet) => {
            let payload = inflate(&packet[5..]);
            let mut expected = Vec::new();
            for (offset, data) in [
                (0u32, vec![0xFFu8]),
                (3, vec![0xFF]),
                (5, vec![0xFF]),
                (7, vec![0xFF]),
                (10, vec![0xFF, 0xFF]),
                (15, vec![0xFF]),
            ] {
                expected.extend_from_slice(&be32(offset));
                expected.extend_from_slice(&be32(data.len() as u32));
                expected.extend_from_slice(&data);
            }
            assert_eq!(payload, expected);
        },
        _ => panic!("expected a delta frame"),
    }
}

#[test]
fn identical_frames_no_delta() {
    let mut streamer = FrameStreamer::new(small_bgra_device());
    let raw: Vec<u8> = vec![
        0x00, 0x00, 0xFF, 0xFF, 0x00, 0xFF, 0x00, 0xFF, 0xFF, 0x00, 0x00, 0xFF, 0x00, 0x00, 0x00,
        0xFF,
    ];
    match streamer.process_frame(&raw) {
        FrameOutcome::Delta(_) => {},
        _ => panic!("first frame should produce a delta"),
    }
    match streamer.process_frame(&raw) {
        FrameOutcome::NoChange => {},
        _ => panic!("identical frame must broadcast nothing"),
    }
}

#[test]
fn single_difference_at_first_index() {
    let mut streamer = FrameStreamer::new(small_bgra_device());
    // Only the red channel of the first pixel differs: RGBA index 0.
    let raw: Vec<u8> = vec![0, 0, 0x7F, 0, 0, 0, 0, 0, 0, 0, 0, 0, 0, 0, 0, 0];
    match streamer.process_frame(&raw) {
        FrameOutcome::Delta(packet) => {
            let payload = inflate(&packet[5..]);
            let mut expected = be32(0);
            expected.extend_from_slice(&be32(1));
            expected.push(0x7F);
            assert_eq!(payload, expected);
        },
        _ => panic!("expected a delta frame"),
    }
}

#[test]
fn single_difference_at_last_index() {
    let mut streamer = FrameStreamer::new(small_bgra_device());
    // Only the alpha channel of the last pixel differs: RGBA index 15.
    let raw: Vec<u8> = vec![0, 0, 0, 0, 0, 0, 0, 0, 0, 0, 0, 0, 0, 0, 0, 0x42];
    match streamer.process_frame(&raw) {
        FrameOutcome::Delta(packet) => {
            let payload = inflate(&packet[5..]);
            let mut expected = be32(15);
            expected.extend_from_slice(&be32(1));
            expected.push(0x42);
            assert_eq!(payload, expected);
        },
        _ => panic!("expected a delta frame"),
    }
}

#[test]
fn threshold_triggers_png_fallback() {
    // 1024 x 512 RGBA frame: 2,097,152 bytes.  Every byte differs from the
    // zero baseline except the very last one, so a single run of 2,097,151
    // bytes closes before the end of the frame and crosses the 1,200,000-byte
    // threshold: the tick must fall back to the full PNG.
    let device = Device {
        width: 1024,
        height: 512,
        fb_size: 1024 * 512 * 4,
        pixel_format: PixelFormat::Bgra,
        digitizer_path: "/dev/input/event2",
        digitizer_orientation: DigitizerOrientation::Identity,
        max_digitizer_width: 6760,
        max_digitizer_height: 11960,
    };
    let mut streamer = FrameStreamer::new(device);
    let mut raw = vec![0xFFu8; 1024 * 512 * 4];
    let last = raw.len() - 1;
    raw[last] = 0x00;
    match streamer.process_frame(&raw) {
        FrameOutcome::PngFallback(packet) => {
            assert_eq!(packet[0], 0x03);
            let (w, h, pixels) = decode_png_rgba(&packet[1..]);
            assert_eq!(w, 1024);
            assert_eq!(h, 512);
            // The PNG is lossless: it decodes to the frame just broadcast.
            assert_eq!(pixels, streamer.last_broadcast_rgba);
        },
        _ => panic!("expected the PNG fallback"),
    }
}

#[test]
fn png_baseline_roundtrip() {
    // Full-image packet of a known baseline decodes back to the same bytes.
    let device = small_bgra_device();
    let rgba: Vec<u8> = vec![
        0x10, 0x20, 0x30, 0x40, 0x50, 0x60, 0x70, 0x80, 0x90, 0xA0, 0xB0, 0xC0, 0xD0, 0xE0, 0xF0,
        0xFF,
    ];
    let packet = rmstream::packets::get_current_screen_as_png(&device, &rgba);
    assert_eq!(packet[0], 0x03);
    let (w, h, pixels) = decode_png_rgba(&packet[1..]);
    assert_eq!((w, h), (4, 1));
    assert_eq!(pixels, rgba);
}

#[test]
fn session_greeting_config_then_baseline() {
    let device = small_bgra_device();
    let baseline: Vec<u8> = vec![0u8; 16];
    let greeting = rmstream::packets::session_greeting(&device, &baseline);
    assert_eq!(greeting.len(), 2);
    // Config packet first: tag 0, then width and height big-endian.
    assert_eq!(greeting[0], vec![0u8, 0, 0, 0, 4, 0, 0, 0, 1]);
    // Baseline PNG second: tag 3, decoding to the baseline bytes.
    assert_eq!(greeting[1][0], 0x03);
    let (_, _, pixels) = decode_png_rgba(&greeting[1][1..]);
    assert_eq!(pixels, baseline);
}

#[test]
fn encode_deltas_two_runs() {
    let old_frame: Vec<u8> = vec![0, 0, 0, 0];
    let new_frame: Vec<u8> = vec![0, 1, 0, 2];
    let deltas = rmstream::delta::encode_deltas(&old_frame, &new_frame).unwrap();
    let mut expected = be32(1);
    expected.extend_from_slice(&be32(1));
    expected.push(1);
    expected.extend_from_slice(&be32(3));
    expected.extend_from_slice(&be32(1));
    expected.push(2);
    assert_eq!(deltas, expected);
}

#[test]
fn image_delta_serialize_layout() {
    let delta = rmstream::delta::ImageDelta { offset: 7, data: vec![1, 2, 3] };
    assert_eq!(delta.serialize(), vec![0, 0, 0, 7, 0, 0, 0, 3, 1, 2, 3]);
}

#[test]
fn bgra_translator_is_self_inverse() {
    let device = small_bgra_device();
    let original: Vec<u8> = vec![
        0x01, 0x02, 0x03, 0x04, 0x11, 0x12, 0x13, 0x14, 0x21, 0x22, 0x23, 0x24, 0x31, 0x32, 0x33,
        0x34,
    ];
    let mut once = vec![0u8; 16];
    rmstream::devices::rgba_image_data_translator(&device, &original, &mut once);
    let mut twice = vec![0u8; 16];
    rmstream::devices::rgba_image_data_translator(&device, &once, &mut twice);
    assert_eq!(twice, original);
}

#[test]
fn rgb565_pixel_expansion() {
    let device = Device {
        width: 4,
        height: 1,
        fb_size: 8,
        pixel_format: PixelFormat::Rgb565,
        digitizer_path: "/dev/input/event1",
        digitizer_orientation: DigitizerOrientation::Rotated,
        max_digitizer_width: 20967,
        max_digitizer_height: 15725,
    };
    // Little-order pixel words: 0xF800, 0x07E0, 0x001F, 0x0000.
    let raw: Vec<u8> = vec![0x00, 0xF8, 0xE0, 0x07, 0x1F, 0x00, 0x00, 0x00];
    let mut out = vec![0u8; 16];
    rmstream::devices::rgb565_image_data_translator(&device, &raw, &mut out);
    let expected: Vec<u8> = vec![
        0xF8, 0x00, 0x00, 0xFF, 0x00, 0xFC, 0x00, 0xFF, 0x00, 0x00, 0xF8, 0xFF, 0x00, 0x00, 0x00,
        0xFF,
    ];
    assert_eq!(out, expected);
}
