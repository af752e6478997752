use led_matrix::codec::encode_layout;
use led_matrix::codec::parse_layout;

#[test]
fn encode_small_buffer() {
    let text = encode_layout(&vec![0, 12, 255]);
    assert_eq!(text, b"[0,12,255]".to_vec());
}

#[test]
fn encode_empty_buffer() {
    assert_eq!(encode_layout(&Vec::new()), b"[]".to_vec());
}

#[test]
fn parse_small_buffer() {
    let parsed = parse_layout(&b"[0,12,255]".to_vec());
    assert_eq!(parsed, Some(vec![0, 12, 255]));
}

#[test]
fn parse_empty_array() {
    assert_eq!(parse_layout(&b"[]".to_vec()), Some(Vec::new()));
}

#[test]
fn parse_rejects_value_over_255() {
    assert_eq!(parse_layout(&b"[256]".to_vec()), None);
    assert_eq!(parse_layout(&b"[999]".to_vec()), None);
}

#[test]
fn parse_rejects_leading_zero() {
    assert_eq!(parse_layout(&b"[01]".to_vec()), None);
}

#[test]
fn parse_rejects_malformed_text() {
    assert_eq!(parse_layout(&b"".to_vec()), None);
    assert_eq!(parse_layout(&b"[".to_vec()), None);
    assert_eq!(parse_layout(&b"[1,".to_vec()), None);
    assert_eq!(parse_layout(&b"[1,]".to_vec()), None);
    assert_eq!(parse_layout(&b"[,1]".to_vec()), None);
    assert_eq!(parse_layout(&b"1,2]".to_vec()), None);
    assert_eq!(parse_layout(&b"[1 2]".to_vec()), None);
    assert_eq!(parse_layout(&b"[1,2] ".to_vec()), None);
}

#[test]
fn encode_then_parse_round_trips() {
    let buffers = [
        vec![],
        vec![0u8],
        vec![255u8],
        vec![7, 42, 0, 199, 255, 100, 10, 9, 1],
        (0u16..=255).map(|v| v as u8).collect::<Vec<u8>>(),
        vec![0u8; 22 * 8 * 3],
    ];
    for buf in buffers.iter() {
        let text = encode_layout(buf);
        assert_eq!(parse_layout(&text), Some(buf.clone()));
    }
}
