use c2pa_validate::text_wrapper::{
    locate_text_wrapper, text_wrapper_char_span, vs_to_byte, TEXT_WRAPPER_HEADER,
};

fn byte_to_vs(b: u8) -> char {
    if b < 16 {
        char::from_u32(0xFE00 + b as u32).expect("selector")
    } else {
        char::from_u32(0xE0100 + (b as u32 - 16)).expect("selector")
    }
}

/// A wrapper around `manifest` behind `carrier`, padded to the length that the
/// manifest length determines.
fn embed(carrier: &str, manifest: &[u8]) -> String {
    let mut payload = b"C2PATXT\0".to_vec();
    payload.push(1);
    payload.extend_from_slice(&(manifest.len() as u32).to_be_bytes());
    payload.extend_from_slice(manifest);
    let mut wrapper = String::from('\u{feff}');
    for b in payload {
        wrapper.push(byte_to_vs(b));
    }
    let target = 3 + (TEXT_WRAPPER_HEADER + manifest.len()) * 4 + 6;
    let mut left = target - wrapper.len();
    while left % 4 != 0 {
        wrapper.push(byte_to_vs(0x00));
        left -= 3;
    }
    while left > 0 {
        wrapper.push(byte_to_vs(0xFF));
        left -= 4;
    }
    format!("{carrier}{wrapper}")
}

fn padded_text_with_wrapper(carrier: &str) -> String {
    let manifest: Vec<u8> = (0u8..64).map(|i| i.wrapping_mul(7).wrapping_add(3)).collect();
    embed(carrier, &manifest)
}

#[test]
fn locate_text_wrapper_measures_padded_engine_wrapper_exactly() {
    let text = padded_text_with_wrapper("hello world");
    let (start, len) = locate_text_wrapper(&text).expect("wrapper found");
    assert_eq!(start, "hello world".len());
    assert_eq!(
        start + len,
        text.len(),
        "the padded wrapper spans to the end of the standalone text"
    );
}

#[test]
fn locate_text_wrapper_never_absorbs_adjacent_foreign_run() {
    let text = padded_text_with_wrapper("hello world");
    let baseline = locate_text_wrapper(&text).expect("wrapper found");
    for run_bytes in [[0x01u8, 0x82, 0x33, 0xC4], [0x00u8, 0xFF, 0x00, 0xFF]] {
        let run: String = run_bytes.iter().map(|&b| byte_to_vs(b)).collect();
        let doc = format!("{text}{run} une suite.");
        assert_eq!(
            locate_text_wrapper(&doc).expect("wrapper still found"),
            baseline,
            "adjacent foreign run {run_bytes:02x?} must not shift the measured span"
        );
    }
    let run: String = [0x11u8, 0x22, 0x33, 0x44].iter().map(|&b| byte_to_vs(b)).collect();
    let carrier_len = "hello world".len();
    let doc = format!("{}{}{}", &text[..carrier_len], run, &text[carrier_len..]);
    let (start, len) = locate_text_wrapper(&doc).expect("wrapper found");
    assert_eq!(start, carrier_len + run.len());
    assert_eq!(len, baseline.1, "prefix run must not change the length");
}

#[test]
fn locate_text_wrapper_absent_or_truncated_is_none() {
    assert!(locate_text_wrapper("plain text, no wrapper").is_none());
    assert!(locate_text_wrapper("bom \u{feff} but no selectors").is_none());
    let text = padded_text_with_wrapper("txt");
    let (start, len) = locate_text_wrapper(&text).expect("wrapper found");
    let mut cut_at = start + len / 2;
    while !text.is_char_boundary(cut_at) {
        cut_at -= 1;
    }
    assert!(locate_text_wrapper(&text[..cut_at]).is_none());
}

#[test]
fn the_span_is_also_known_in_characters() {
    let text = padded_text_with_wrapper("h\u{e9}llo");
    let (start, end) = text_wrapper_char_span(&text).expect("wrapper found");
    assert_eq!(start, 5);
    assert_eq!(end, text.chars().count());
    assert!(text_wrapper_char_span("nothing here").is_none());
}

#[test]
fn selectors_and_bytes_correspond() {
    for b in 0u8..=255 {
        assert_eq!(vs_to_byte(byte_to_vs(b)), Some(b));
    }
    assert_eq!(vs_to_byte('a'), None);
}

#[test]
fn a_wrapper_of_another_version_is_not_one() {
    let mut text = String::from("x\u{feff}");
    for b in b"C2PATXT\0".iter().chain(&[2, 0, 0, 0, 0]) {
        text.push(byte_to_vs(*b));
    }
    assert!(locate_text_wrapper(&text).is_none());
}
