use pc_sharer::frame::{decode_length, encode_frame};
use pc_sharer::model::MAX_METADATA_BYTES;
use pc_sharer::target::parse_manual_target;
use pc_sharer::text::{
    chars_of, is_text_less, is_white_space, parse_u16, push_decimal, with_forward_slashes,
};
use pc_sharer::units::format_bytes;

fn float_text(value: u64) -> String {
    let units = ["B", "KB", "MB", "GB", "TB"];
    let mut current = value as f64;
    let mut unit_index = 0;
    while current >= 1024.0 && unit_index < units.len() - 1 {
        current /= 1024.0;
        unit_index += 1;
    }
    if unit_index == 0 || current >= 10.0 {
        format!("{current:.0} {}", units[unit_index])
    } else {
        format!("{current:.1} {}", units[unit_index])
    }
}

fn target(raw: &str) -> Result<(String, u16), String> {
    parse_manual_target(raw, 53343)
}

fn number(text: &str) -> Option<u16> {
    parse_u16(&chars_of(text), 0)
}

#[test]
fn bytes_are_shown_with_a_fitting_unit() {
    assert_eq!(format_bytes(0), "0 B");
    assert_eq!(format_bytes(1023), "1023 B");
    assert_eq!(format_bytes(1024), "1.0 KB");
    assert_eq!(format_bytes(1536), "1.5 KB");
    assert_eq!(format_bytes(10 * 1024), "10 KB");
    assert_eq!(format_bytes(1024 * 1024), "1.0 MB");
    assert_eq!(format_bytes(5 * 1024 * 1024 * 1024 / 2), "2.5 GB");
    assert_eq!(format_bytes(3 * 1024 * 1024 * 1024 * 1024), "3.0 TB");
    assert_eq!(format_bytes(u64::MAX), "16777216 TB");
}

#[test]
fn bytes_are_rounded_as_doubles_are() {
    let mut values: Vec<u64> = Vec::new();
    for shift in 0..64 {
        let base = 1u64 << shift;
        for delta in 0..70 {
            values.push(base.wrapping_add(delta));
            values.push(base.wrapping_sub(delta));
            values.push(base.wrapping_add(base / 2).wrapping_add(delta));
            values.push(base.wrapping_mul(10).wrapping_sub(delta));
            values.push((base / 20).wrapping_mul(delta));
        }
    }
    let mut x: u64 = 0x9E37_79B9_7F4A_7C15;
    for _ in 0..20_000 {
        x ^= x << 13;
        x ^= x >> 7;
        x ^= x << 17;
        values.push(x);
        values.push(x >> (x % 64));
    }
    for value in values {
        assert_eq!(format_bytes(value), float_text(value), "{value}");
    }
}

#[test]
fn a_target_with_a_port_is_taken_apart() {
    assert_eq!(target("192.168.1.5:8080"), Ok(("192.168.1.5".to_string(), 8080)));
    assert_eq!(target("  box : 80").is_err(), true);
    assert_eq!(target("  box :80 "), Ok(("box".to_string(), 80)));
    assert_eq!(target("box:+80"), Ok(("box".to_string(), 80)));
    assert_eq!(target(":80"), Ok(("".to_string(), 80)));
}

#[test]
fn a_target_without_a_port_gets_the_default_port() {
    assert_eq!(target(" 10.0.0.7\t"), Ok(("10.0.0.7".to_string(), 53343)));
    assert_eq!(target("fe80::1"), Ok(("fe80::1".to_string(), 53343)));
    assert_eq!(target("\u{3000}box\u{a0}"), Ok(("box".to_string(), 53343)));
}

#[test]
fn an_empty_target_is_refused() {
    assert_eq!(target(""), Err("请输入目标 IP".to_string()));
    assert_eq!(target(" \n\u{2003}"), Err("请输入目标 IP".to_string()));
}

#[test]
fn a_bad_port_is_refused() {
    for raw in ["box:", "box:x", "box:65536", "box:-1", "box: 1", "box:1x", "box:+", "box:99999999"]
    {
        assert_eq!(target(raw), Err("端口格式不正确".to_string()), "{raw}");
    }
    assert_eq!(target("box:65535"), Ok(("box".to_string(), 65535)));
    assert_eq!(target("box:000080"), Ok(("box".to_string(), 80)));
}

#[test]
fn a_written_target_is_read_back() {
    for port in [0u16, 1, 80, 53343, 65535] {
        assert_eq!(target(&format!("host-a:{port}")), Ok(("host-a".to_string(), port)));
    }
}

#[test]
fn numbers_are_read_as_the_standard_library_reads_them() {
    for text in [
        "0", "00", "+0", "7", "+7", "65535", "65536", "065535", "", "+", "-", "-0", "++1", " 1", "1 ",
        "1_0", "٣", "12a", "99999999999999999999",
    ] {
        assert_eq!(number(text), text.parse::<u16>().ok(), "{text}");
    }
}

#[test]
fn decimals_are_written_out() {
    for n in [0u128, 7, 10, 12345, u64::MAX as u128, u128::MAX] {
        let mut text = String::from("n=");
        push_decimal(&mut text, n);
        assert_eq!(text, format!("n={n}"));
    }
}

#[test]
fn white_space_is_that_of_unicode() {
    for n in 0..0x11_0000u32 {
        if let Some(c) = char::from_u32(n) {
            assert_eq!(is_white_space(c), c.is_whitespace(), "{n:x}");
        }
    }
}

#[test]
fn texts_are_ordered_as_strings_are() {
    let samples = ["", "a", "b", "ab", "aa", "B", "中", "中文", "\u{10FFFF}", "\u{FFFF}", "a/b", "a b"];
    for a in samples {
        for b in samples {
            assert_eq!(is_text_less(&chars_of(a), &chars_of(b)), a < b, "{a} {b}");
        }
    }
}

#[test]
fn backslashes_become_slashes() {
    assert_eq!(with_forward_slashes("a\\b/c\\"), "a/b/c/");
    assert_eq!(with_forward_slashes("中\\文"), "中/文");
}

#[test]
fn a_frame_is_its_length_and_its_payload() {
    assert_eq!(encode_frame(&vec![7, 8, 9]), Ok(vec![0, 0, 0, 3, 7, 8, 9]));
    let payload = vec![1u8; 0x1_0203];
    let bytes = encode_frame(&payload).unwrap();
    assert_eq!(bytes[..4], [0, 1, 2, 3]);
    assert_eq!(bytes[4..], payload[..]);
}

#[test]
fn a_frame_is_read_back() {
    for len in [1usize, 255, 256, 65_536, 1_000_003] {
        let payload = vec![9u8; len];
        let bytes = encode_frame(&payload).unwrap();
        let header = [bytes[0], bytes[1], bytes[2], bytes[3]];
        assert_eq!(decode_length(header), Ok(len));
        assert_eq!(bytes.len(), 4 + len);
    }
}

#[test]
fn a_payload_over_the_limit_is_not_written() {
    let largest = vec![0u8; MAX_METADATA_BYTES];
    assert_eq!(encode_frame(&largest).unwrap()[..4], [1, 0, 0, 0]);
    let over = vec![0u8; MAX_METADATA_BYTES + 1];
    assert_eq!(encode_frame(&over), Err("传输元数据过大".to_string()));
}

#[test]
fn a_length_out_of_bounds_is_not_read() {
    assert_eq!(decode_length([0, 0, 0, 0]), Err("传输元数据长度异常".to_string()));
    assert_eq!(decode_length([1, 0, 0, 1]), Err("传输元数据长度异常".to_string()));
    assert_eq!(decode_length([255, 255, 255, 255]), Err("传输元数据长度异常".to_string()));
    assert_eq!(decode_length([1, 0, 0, 0]), Ok(MAX_METADATA_BYTES));
    assert_eq!(decode_length([0, 0, 0, 1]), Ok(1));
}
