use hls_vod::big_endian::{read_u32_be, read_u64_be, write_u32_be, write_u64_be};
use hls_vod::proxy::forwarding::Failure;
use hls_vod::text::{
    contains_text, is_text_less, join_texts, push_decimal, push_padded, push_seconds3,
    push_seconds6, push_signed_decimal, same_text, split_text, trim_leading, trim_white,
};

fn strings(list: &[&str]) -> Vec<String> {
    list.iter().map(|s| s.to_string()).collect()
}

#[test]
fn texts_come_apart_as_they_went_together() {
    for parts in [vec![""], vec!["a"], vec!["", ""], vec!["ab", "", "c"]] {
        let joined = join_texts(&strings(&parts), ",");
        assert_eq!(joined, parts.join(","));
        assert_eq!(split_text(&joined, ','), strings(&parts));
    }
    assert_eq!(join_texts(&Vec::new(), ","), "");
}

#[test]
fn texts_are_searched_and_trimmed() {
    assert!(contains_text("abc", ""));
    assert!(contains_text("", ""));
    assert!(contains_text("aab", "ab"));
    assert!(!contains_text("aab", "ba"));
    assert!(!contains_text("a", "ab"));
    assert_eq!(trim_leading("//a/", '/'), "a/");
    assert_eq!(trim_leading("///", '/'), "");
    assert_eq!(trim_white(" \u{2003}a b\t\n"), "a b");
    assert_eq!(trim_white("  "), "");
    for c in '\0'..=char::MAX {
        let n = c as u32;
        let white = matches!(n, 0x9..=0xd | 0x20 | 0x85 | 0xa0 | 0x1680 | 0x2000..=0x200a)
            || matches!(n, 0x2028 | 0x2029 | 0x202f | 0x205f | 0x3000);
        assert_eq!(c.is_whitespace(), white);
    }
    assert!(same_text("é", "é"));
    assert!(!same_text("a", "ab"));
}

#[test]
fn texts_are_ordered_like_their_bytes() {
    let words = ["", "a", "aac", "ab", "ac3", "eac3", "z", "é", "\u{10000}"];
    for a in words {
        for b in words {
            assert_eq!(is_text_less(a, b), a < b, "{} {}", a, b);
        }
    }
}

#[test]
fn numbers_are_written_in_decimal() {
    let mut s = String::from("n=");
    push_decimal(&mut s, 0);
    s.push(' ');
    push_decimal(&mut s, u64::MAX);
    s.push(' ');
    push_signed_decimal(&mut s, i64::MIN);
    s.push(' ');
    push_padded(&mut s, 12345, 3);
    push_padded(&mut s, 7, 4);
    assert_eq!(s, format!("n=0 {} {} 3450007", u64::MAX, i64::MIN));
    for us in [0u64, 1, 999_999, 4_000_000, 12_345_678] {
        let mut six = String::new();
        push_seconds6(&mut six, us);
        assert_eq!(six, format!("{}.{:06}", us / 1_000_000, us % 1_000_000));
    }
}

#[test]
fn seconds_are_rounded_as_double_precision() {
    let three = |us: u64| {
        let mut s = String::new();
        push_seconds3(&mut s, us);
        s
    };
    assert_eq!(three(4_002_500), "4.003");
    assert_eq!(three(62_500), "0.062");
    assert_eq!(three(187_500), "0.188");
    let ties = (0..60_000u64).map(|ms| ms * 1000 + 500);
    let others = (0..100_000u64).map(|i| i * i * 7919 % 100_000_000);
    for us in ties.chain(others).chain([0, 1, 499, 501, 1 << 50, (1 << 53) - 1]) {
        assert_eq!(three(us), format!("{:.3}", us as f64 / 1e6));
    }
}

#[test]
fn big_endian_numbers_read_back() {
    let mut data = vec![0u8; 12];
    write_u32_be(&mut data, 1, 0x0102_0304);
    assert_eq!(data[..6], [0, 1, 2, 3, 4, 0]);
    assert_eq!(read_u32_be(&data, 1), 0x0102_0304);
    write_u64_be(&mut data, 4, u64::MAX - 1);
    assert_eq!(read_u64_be(&data, 4), u64::MAX - 1);
    assert_eq!(data[3], 3);
    assert_eq!(data[4..], [255, 255, 255, 255, 255, 255, 255, 254]);
}

#[test]
fn failures_have_a_status() {
    let cases = [
        (Failure::DecodeRequest, 400),
        (Failure::Send, 502),
        (Failure::ReadBody, 500),
        (Failure::DecodeResponse, 400),
        (Failure::Rewrite, 400),
        (Failure::BuildResponse, 500),
        (Failure::UnknownUrl, 400),
        (Failure::NoFile, 404),
        (Failure::OpenMedia, 500),
        (Failure::Generate, 500),
    ];
    for (failure, status) in cases {
        assert_eq!(failure.status(), status);
    }
}
