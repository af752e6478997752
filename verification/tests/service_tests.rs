use led_matrix::LedError;
use led_matrix::color::LedColor;
use led_matrix::color::Rgb;
use led_matrix::service::DeviceService;

const WIDTH: usize = 22;
const HEIGHT: usize = 8;

fn connected_service(serial: &str) -> DeviceService {
    let mut svc = DeviceService::new(WIDTH, HEIGHT);
    let serial = serial.to_string();
    let done = svc.connect_candidate(&serial, &serial, 7);
    assert!(done);
    svc
}

/// A mock USB layer: a fixed set of attached serial numbers, counting how
/// often a connect has to enumerate them.
struct MockBus {
    attached: Vec<String>,
    enumerations: u32,
}

impl MockBus {
    fn connect(&mut self, svc: &mut DeviceService, serial: &String) -> Result<bool, LedError> {
        if let Some(_handle) = svc.connect_begin(serial) {
            // A stored handle exists: probe it instead of enumerating.
            // In this mock every stored handle is still alive.
            if svc.connect_after_probe(serial, true) {
                return Ok(true);
            }
        }
        self.enumerations += 1;
        for (i, candidate) in self.attached.clone().iter().enumerate() {
            if svc.connect_candidate(serial, candidate, i as u64) {
                return Ok(true);
            }
        }
        Err(LedError::DeviceNotFound)
    }
}

#[test]
fn fresh_service_has_no_state() {
    let svc = DeviceService::new(WIDTH, HEIGHT);
    let serial = "SN-A".to_string();
    assert!(svc.get_buffer(&serial).is_none());
    assert!(svc.connect_begin(&serial).is_none());
    assert_eq!(svc.handle_for(&serial), Err(LedError::DeviceNotConnected));
    assert!(svc.get_friendly_names().is_empty());
}

#[test]
fn connect_creates_an_all_zero_buffer() {
    let svc = connected_service("SN-B");
    let serial = "SN-B".to_string();
    let buf = svc.get_buffer(&serial).unwrap();
    assert_eq!(buf.len(), WIDTH * HEIGHT * 3);
    assert!(buf.iter().all(|&b| b == 0));
}

#[test]
fn reconnect_keeps_the_existing_buffer() {
    let mut svc = connected_service("SN-C");
    let serial = "SN-C".to_string();
    svc.update_led_color(&serial, LedColor { index: 0, color: Rgb { r: 1, g: 2, b: 3 } })
        .unwrap();
    let before = svc.get_buffer(&serial).unwrap().clone();
    // The device drops off the bus and comes back: the stale handle is
    // evicted, a new one stored, and the framebuffer survives.
    assert!(!svc.connect_after_probe(&serial, false));
    assert!(svc.connect_begin(&serial).is_none());
    assert!(svc.connect_candidate(&serial, &serial, 99));
    assert_eq!(svc.get_buffer(&serial).unwrap(), &before);
    assert_eq!(svc.handle_for(&serial), Ok(99));
}

#[test]
fn connect_twice_succeeds_without_re_enumerating() {
    let serial = "SN-D".to_string();
    let mut svc = DeviceService::new(WIDTH, HEIGHT);
    let mut bus = MockBus { attached: vec![serial.clone()], enumerations: 0 };
    assert_eq!(bus.connect(&mut svc, &serial), Ok(true));
    assert_eq!(bus.enumerations, 1);
    // Already connected: the liveness short-circuit answers without a scan.
    assert_eq!(bus.connect(&mut svc, &serial), Ok(true));
    assert_eq!(bus.connect(&mut svc, &serial), Ok(true));
    assert_eq!(bus.enumerations, 1);
}

#[test]
fn connect_unknown_serial_is_device_not_found() {
    let serial = "SN-MISSING".to_string();
    let mut svc = DeviceService::new(WIDTH, HEIGHT);
    let mut bus = MockBus { attached: vec!["SN-OTHER".to_string()], enumerations: 0 };
    assert_eq!(bus.connect(&mut svc, &serial), Err(LedError::DeviceNotFound));
    assert!(svc.get_buffer(&serial).is_none());
}

#[test]
fn update_led_color_writes_grb_at_three_times_index() {
    let mut svc = connected_service("SN-E");
    let serial = "SN-E".to_string();
    svc.update_led_color(&serial, LedColor { index: 2, color: Rgb { r: 10, g: 20, b: 30 } })
        .unwrap();
    let buf = svc.get_buffer(&serial).unwrap();
    assert_eq!(buf[6], 20); // green first
    assert_eq!(buf[7], 10); // then red
    assert_eq!(buf[8], 30); // then blue
    assert!(buf[..6].iter().all(|&b| b == 0));
    assert!(buf[9..].iter().all(|&b| b == 0));
}

#[test]
fn update_led_color_accepts_last_index_rejects_one_past() {
    let mut svc = connected_service("SN-F");
    let serial = "SN-F".to_string();
    let color = Rgb { r: 1, g: 2, b: 3 };
    assert_eq!(svc.update_led_color(&serial, LedColor { index: 175, color }), Ok(()));
    let before = svc.get_buffer(&serial).unwrap().clone();
    assert_eq!(
        svc.update_led_color(&serial, LedColor { index: 176, color }),
        Err(LedError::SizeMismatch)
    );
    assert_eq!(svc.get_buffer(&serial).unwrap(), &before);
}

#[test]
fn update_led_color_without_buffer_is_buffer_not_found() {
    let mut svc = DeviceService::new(WIDTH, HEIGHT);
    let serial = "SN-G".to_string();
    let color = Rgb { r: 1, g: 2, b: 3 };
    assert_eq!(
        svc.update_led_color(&serial, LedColor { index: 0, color }),
        Err(LedError::BufferNotFound)
    );
}

#[test]
fn update_led_buffer_overwrites_in_grb_order() {
    let mut svc = connected_service("SN-H");
    let serial = "SN-H".to_string();
    let mut colors = vec![Rgb { r: 0, g: 0, b: 0 }; WIDTH * HEIGHT];
    colors[0] = Rgb { r: 1, g: 2, b: 3 };
    colors[175] = Rgb { r: 7, g: 8, b: 9 };
    svc.update_led_buffer(&serial, &colors).unwrap();
    let buf = svc.get_buffer(&serial).unwrap();
    assert_eq!(&buf[0..3], &[2, 1, 3]);
    assert_eq!(&buf[525..528], &[8, 7, 9]);
}

#[test]
fn update_led_buffer_wrong_length_fails_and_leaves_buffer_unchanged() {
    let mut svc = connected_service("SN-I");
    let serial = "SN-I".to_string();
    let mut colors = vec![Rgb { r: 5, g: 6, b: 7 }; WIDTH * HEIGHT];
    svc.update_led_buffer(&serial, &colors).unwrap();
    let before = svc.get_buffer(&serial).unwrap().clone();
    colors.pop();
    assert_eq!(svc.update_led_buffer(&serial, &colors), Err(LedError::SizeMismatch));
    assert_eq!(svc.get_buffer(&serial).unwrap(), &before);
    colors.push(Rgb { r: 5, g: 6, b: 7 });
    colors.push(Rgb { r: 5, g: 6, b: 7 });
    assert_eq!(svc.update_led_buffer(&serial, &colors), Err(LedError::SizeMismatch));
    assert_eq!(svc.get_buffer(&serial).unwrap(), &before);
}

#[test]
fn save_then_load_reproduces_byte_identical_contents() {
    let mut svc = connected_service("SN-J");
    let serial = "SN-J".to_string();
    let mut colors = Vec::new();
    for i in 0..WIDTH * HEIGHT {
        colors.push(Rgb { r: (i % 256) as u8, g: ((i * 7) % 256) as u8, b: ((i * 13) % 256) as u8 });
    }
    svc.update_led_buffer(&serial, &colors).unwrap();
    let before = svc.get_buffer(&serial).unwrap().clone();
    let text = svc.save_layout(&serial).unwrap();
    let loaded = svc.load_layout(&serial, &text).unwrap();
    assert_eq!(loaded, before);
    assert_eq!(svc.get_buffer(&serial).unwrap(), &before);
}

#[test]
fn load_with_wrong_byte_count_fails_and_does_not_mutate() {
    let mut svc = connected_service("SN-K");
    let serial = "SN-K".to_string();
    // Load valid data first.
    let mut values = vec![9u8; WIDTH * HEIGHT * 3];
    values[0] = 123;
    let text = led_matrix::codec::encode_layout(&values);
    svc.load_layout(&serial, &text).unwrap();
    // Then attempt an invalid load: one byte short.
    let short = led_matrix::codec::encode_layout(&vec![9u8; WIDTH * HEIGHT * 3 - 1]);
    assert_eq!(svc.load_layout(&serial, &short), Err(LedError::SizeMismatch));
    // The buffer still holds the first load.
    assert_eq!(svc.get_buffer(&serial).unwrap(), &values);
}

#[test]
fn load_of_unparsable_text_is_io_error() {
    let mut svc = connected_service("SN-L");
    let serial = "SN-L".to_string();
    let before = svc.get_buffer(&serial).unwrap().clone();
    assert_eq!(
        svc.load_layout(&serial, &b"not a layout".to_vec()),
        Err(LedError::IoError)
    );
    assert_eq!(svc.get_buffer(&serial).unwrap(), &before);
}

#[test]
fn save_without_buffer_is_buffer_not_found() {
    let svc = DeviceService::new(WIDTH, HEIGHT);
    assert_eq!(svc.save_layout(&"SN-M".to_string()), Err(LedError::BufferNotFound));
}

#[test]
fn friendly_names_are_pure_metadata() {
    let mut svc = DeviceService::new(WIDTH, HEIGHT);
    svc.set_friendly_name("SN-N".to_string(), "Desk panel".to_string());
    svc.set_friendly_name("SN-O".to_string(), "Shelf panel".to_string());
    svc.set_friendly_name("SN-N".to_string(), "Desk panel v2".to_string());
    let names = svc.get_friendly_names();
    assert_eq!(names.len(), 2);
    let mut sorted = names.clone();
    sorted.sort();
    assert_eq!(sorted[0], ("SN-N".to_string(), "Desk panel v2".to_string()));
    assert_eq!(sorted[1], ("SN-O".to_string(), "Shelf panel".to_string()));
}

#[test]
fn push_request_needs_a_live_handle() {
    let mut svc = connected_service("SN-P");
    let serial = "SN-P".to_string();
    let (handle, bytes) = svc.push_request(&serial).unwrap();
    assert_eq!(handle, 7);
    assert_eq!(bytes.len(), WIDTH * HEIGHT * 3);
    // After the handle is evicted, a push is refused.
    svc.connect_after_probe(&serial, false);
    assert_eq!(svc.push_request(&serial), Err(LedError::DeviceNotConnected));
}

#[test]
fn error_messages_are_descriptive() {
    assert_eq!(
        LedError::DeviceNotFound.describe(),
        "Device with the specified serial number not found"
    );
    assert_eq!(LedError::DeviceNotConnected.describe(), "Device handle not found");
    assert_eq!(LedError::BufferNotFound.describe(), "Buffer for device not found");
}
