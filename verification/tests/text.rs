use naqix_remote_support::desktop::trim;
use naqix_remote_support::launch::wide;

#[test]
fn trim_stops_at_the_first_nul() {
    let mut buf = [0u16; 16];
    for (i, c) in "Winlogon".encode_utf16().enumerate() {
        buf[i] = c;
    }
    buf[10] = 0x41;
    assert_eq!(trim(&buf), "Winlogon");
}

#[test]
fn trim_without_nul_takes_everything() {
    let buf: Vec<u16> = "Default".encode_utf16().collect();
    assert_eq!(trim(&buf), "Default");
    assert_eq!(trim(&[]), "");
    assert_eq!(trim(&[0, 0x41]), "");
}

#[test]
fn trim_replaces_unpaired_surrogates() {
    // a pair, then a lone high surrogate followed by 'a', then a lone low one
    let buf = [0xD83D, 0xDE00, 0xD800, 0x61, 0xDC00, 0];
    assert_eq!(trim(&buf), "\u{1F600}\u{FFFD}a\u{FFFD}");
}

#[test]
fn wide_is_utf16_with_a_terminator() {
    let w = wide(r"Winsta0\Winlogon");
    let mut expected: Vec<u16> = r"Winsta0\Winlogon".encode_utf16().collect();
    expected.push(0);
    assert_eq!(w, expected);
    assert_eq!(wide(""), vec![0]);
    assert_eq!(wide("\u{1F600}é"), vec![0xD83D, 0xDE00, 0xE9, 0]);
}

#[test]
fn wide_names_read_back() {
    for name in ["Default", "Winlogon", r"Winsta0\Winlogon", "", "écran-\u{1F600}"] {
        assert_eq!(trim(&wide(name)), name);
    }
}
