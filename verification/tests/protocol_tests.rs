use led_matrix::LedError;
use led_matrix::protocol::REQ_GET_TEMPERATURE;
use led_matrix::protocol::REQ_SET_LED;
use led_matrix::protocol::decode_temperature;
use led_matrix::protocol::get_temperature_request;
use led_matrix::protocol::set_led_request;

#[test]
fn set_led_request_is_vendor_out_code_one() {
    let req = set_led_request();
    assert_eq!(req.request_type, 0x40);
    assert_eq!(req.request, REQ_SET_LED);
    assert_eq!(req.request, 0x01);
    assert_eq!(req.value, 0);
    assert_eq!(req.index, 0);
    assert_eq!(req.timeout_ms, 1000);
}

#[test]
fn get_temperature_request_is_vendor_in_code_two() {
    let req = get_temperature_request();
    assert_eq!(req.request_type, 0xC0);
    assert_eq!(req.request, REQ_GET_TEMPERATURE);
    assert_eq!(req.request, 0x02);
    assert_eq!(req.value, 0);
    assert_eq!(req.index, 0);
    assert_eq!(req.timeout_ms, 1000);
}

#[test]
fn decode_temperature_reads_four_little_endian_words() {
    let payload = vec![
        0x01, 0x00, 0x00, 0x00, // 1
        0x00, 0x01, 0x00, 0x00, // 256
        0xFF, 0xFF, 0xFF, 0xFF, // u32::MAX
        0x78, 0x56, 0x34, 0x12, // 0x12345678
    ];
    let words = decode_temperature(&payload).unwrap();
    assert_eq!(words, vec![1, 256, u32::MAX, 0x12345678]);
}

#[test]
fn decode_temperature_matches_float_bit_patterns() {
    // The device sends four little-endian 32-bit floats; the words are
    // their bit patterns.
    let temps = [21.5f32, -4.25, 0.0, 100.75];
    let mut payload = Vec::new();
    for t in temps.iter() {
        payload.extend(t.to_le_bytes());
    }
    let words = decode_temperature(&payload).unwrap();
    for (w, t) in words.iter().zip(temps.iter()) {
        assert_eq!(f32::from_bits(*w), *t);
    }
}

#[test]
fn decode_temperature_rejects_wrong_payload_length() {
    assert_eq!(decode_temperature(&vec![0u8; 15]), Err(LedError::TransportError));
    assert_eq!(decode_temperature(&vec![0u8; 17]), Err(LedError::TransportError));
    assert_eq!(decode_temperature(&Vec::new()), Err(LedError::TransportError));
}
