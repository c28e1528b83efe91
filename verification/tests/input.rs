use rmstream::devices::{
    detect_device, get_device_info, rm2_digitizer_translator, rmpp_digitizer_translator,
    ReMarkableDevice,
};
use rmstream::packets::{get_config_packet, parse_fb_address};
use rmstream::stylus::{PointerState, StylusEvent};

#[test]
fn detect_device_variants() {
    let r = detect_device(&b"reMarkable Chiappa board".to_vec());
    assert!(matches!(r, Some(ReMarkableDevice::PaperProMove)));
    let r = detect_device(&b"reMarkable Ferrari".to_vec());
    assert!(matches!(r, Some(ReMarkableDevice::PaperPro)));
    let r = detect_device(&b"reMarkable 2.0".to_vec());
    assert!(matches!(r, Some(ReMarkableDevice::RM2)));
    let r = detect_device(&b"freescale i.mx6".to_vec());
    assert!(r.is_none());
}

#[test]
fn device_profiles_match_models() {
    let pro = get_device_info(ReMarkableDevice::PaperPro);
    assert_eq!((pro.width, pro.height, pro.fb_size), (1632, 2154, 1632 * 2154 * 4));
    assert_eq!(pro.digitizer_path, "/dev/input/event2");
    let mv = get_device_info(ReMarkableDevice::PaperProMove);
    assert_eq!((mv.width, mv.height, mv.fb_size), (960, 1696, 960 * 1696 * 4));
    let rm2 = get_device_info(ReMarkableDevice::RM2);
    assert_eq!((rm2.width, rm2.height, rm2.fb_size), (1404, 1872, 1872 * 1404 * 2));
    assert_eq!(rm2.digitizer_path, "/dev/input/event1");
}

#[test]
fn ferrari_stylus_packet() {
    // ABS_X=5590, ABS_Y=7670, ABS_DISTANCE=0, SYN_REPORT on the Ferrari
    // profile normalizes both axes to 50 and emits one packet.
    let device = get_device_info(ReMarkableDevice::PaperPro);
    let mut state = PointerState::new();
    assert!(state.handle_event(&device, StylusEvent::AbsX(5590)).is_none());
    assert!(state.handle_event(&device, StylusEvent::AbsY(7670)).is_none());
    assert!(state.handle_event(&device, StylusEvent::AbsDistance(0)).is_none());
    let packet = state.handle_event(&device, StylusEvent::SynReport).unwrap();
    assert_eq!(packet, vec![0x02, 0, 0, 0, 50, 0, 0, 0, 50, 0, 0, 0, 0]);
}

#[test]
fn stylus_distance_clamps_and_suppresses() {
    let device = get_device_info(ReMarkableDevice::PaperPro);
    let mut state = PointerState::new();
    state.handle_event(&device, StylusEvent::AbsX(5590));
    state.handle_event(&device, StylusEvent::AbsY(7670));
    state.handle_event(&device, StylusEvent::AbsDistance(0));
    state.handle_event(&device, StylusEvent::SynReport).unwrap();
    // Distance 5 clamps to 1 on emission.
    assert!(state.handle_event(&device, StylusEvent::AbsDistance(5)).is_none());
    let packet = state.handle_event(&device, StylusEvent::SynReport).unwrap();
    assert_eq!(packet, vec![0x02, 0, 0, 0, 50, 0, 0, 0, 50, 0, 0, 0, 1]);
    // Another synchronization with no changes is suppressed.
    assert!(state.handle_event(&device, StylusEvent::SynReport).is_none());
}

#[test]
fn pen_lift_resets_distance() {
    let device = get_device_info(ReMarkableDevice::PaperPro);
    let mut state = PointerState::new();
    state.handle_event(&device, StylusEvent::AbsX(5590));
    state.handle_event(&device, StylusEvent::AbsY(7670));
    state.handle_event(&device, StylusEvent::AbsDistance(5));
    // Lifting the pen forces distance back to zero until the next update.
    state.handle_event(&device, StylusEvent::BtnToolPen(0));
    let packet = state.handle_event(&device, StylusEvent::SynReport).unwrap();
    assert_eq!(packet[12], 0);
    // The next distance update takes effect again.
    state.handle_event(&device, StylusEvent::AbsDistance(3));
    let packet = state.handle_event(&device, StylusEvent::SynReport).unwrap();
    assert_eq!(packet[12], 1);
}

#[test]
fn rotated_digitizer_corners() {
    let device = get_device_info(ReMarkableDevice::RM2);
    let (nx, ny, nd) = rm2_digitizer_translator(&device, 0, 15725, 0);
    assert_eq!((nx, ny, nd), (0, 0, 0));
    let (nx, ny, nd) = rm2_digitizer_translator(&device, 20967, 0, 0);
    assert_eq!((nx, ny, nd), (100, 100, 0));
}

#[test]
fn identity_digitizer_midpoint() {
    let device = get_device_info(ReMarkableDevice::PaperPro);
    let (nx, ny, nd) = rmpp_digitizer_translator(&device, 5590, 7670, 9);
    assert_eq!((nx, ny, nd), (50, 50, 1));
    // Negative axis values truncate toward zero.
    let (nx, _, _) = rmpp_digitizer_translator(&device, -5590, 0, 0);
    assert_eq!(nx, -50);
}

#[test]
fn config_packet_layout() {
    let device = get_device_info(ReMarkableDevice::PaperPro);
    let packet = get_config_packet(&device);
    // 1632 = 0x0660, 2154 = 0x086A.
    assert_eq!(packet, vec![0x00, 0x00, 0x00, 0x06, 0x60, 0x00, 0x00, 0x08, 0x6A]);
}

#[test]
fn parse_fb_address_accepts_hex() {
    assert_eq!(parse_fb_address(&b"0x1a2B".to_vec()), Some(0x1A2B));
    assert_eq!(parse_fb_address(&b"0x0".to_vec()), Some(0));
    assert_eq!(parse_fb_address(&b"0xFFFFFFFFFFFFFFFF".to_vec()), Some(u64::MAX));
}

#[test]
fn parse_fb_address_rejects_malformed() {
    assert_eq!(parse_fb_address(&b"".to_vec()), None);
    assert_eq!(parse_fb_address(&b"0x".to_vec()), None);
    assert_eq!(parse_fb_address(&b"1a2b".to_vec()), None);
    assert_eq!(parse_fb_address(&b"0xzz".to_vec()), None);
    assert_eq!(parse_fb_address(&b"0x12 4".to_vec()), None);
}

#[test]
fn parse_fb_address_rejects_overflow() {
    assert_eq!(parse_fb_address(&b"0x10000000000000000".to_vec()), None);
}

#[test]
fn detect_device_marker_priority() {
    // The small-model marker wins when several markers occur.
    let r = detect_device(&b"chiappa ferrari 2.0".to_vec());
    assert!(matches!(r, Some(ReMarkableDevice::PaperProMove)));
    let r = detect_device(&b"ferrari 2.0".to_vec());
    assert!(matches!(r, Some(ReMarkableDevice::PaperPro)));
}

#[test]
fn emitted_pointer_packets_alternate() {
    // Moving between two positions emits a packet each time; repeating the
    // same position emits nothing, so consecutive packets always differ.
    let device = get_device_info(ReMarkableDevice::PaperPro);
    let mut state = PointerState::new();
    let mut emitted = Vec::new();
    for x in [1000, 2000, 2000, 1000, 1000, 3000] {
        state.handle_event(&device, StylusEvent::AbsX(x));
        if let Some(packet) = state.handle_event(&device, StylusEvent::SynReport) {
            emitted.push(packet);
        }
    }
    assert_eq!(emitted.len(), 4);
    for pair in emitted.windows(2) {
        assert_ne!(pair[0], pair[1]);
    }
}
