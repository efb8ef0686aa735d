use mxr::protocol::Capability;
use mxr::replies::{
    mismatch, no_pane, no_session, second_hello, second_hello_fits, write_failed,
    write_failed_fits,
};
use mxr::text::{decimal_text, parse_u64};

#[test]
fn numbers_are_written_in_decimal() {
    for n in [0u64, 7, 10, 99, 100, 65535, 1_000_000, u64::MAX] {
        assert_eq!(decimal_text(n), n.to_string());
    }
}

#[test]
fn numbers_are_read_as_std_reads_them() {
    let texts = [
        "", "0", "7", "007", "+7", "+", "-7", "++7", "7+", " 7", "7 ", "1_0", "x", "18446744073709551615",
        "18446744073709551616", "99999999999999999999", "00000000000000000000000000001", "é", "+é",
    ];
    for text in texts {
        assert_eq!(parse_u64(text), text.parse::<u64>().ok(), "{:?}", text);
    }
}

#[test]
fn numbers_come_back() {
    for n in [0u64, 1, 42, 1 << 40, u64::MAX] {
        assert_eq!(parse_u64(&decimal_text(n)), Some(n));
    }
}

#[test]
fn replies_have_these_texts() {
    assert_eq!(mismatch(2), "protocol mismatch: daemon 1, client 2");
    assert_eq!(no_session(18), "no such session 18");
    assert_eq!(no_pane(0), "no such pane 0");
    assert_eq!(write_failed("Os { code: 5 }"), "write failed: Os { code: 5 }");
}

#[test]
fn a_second_hello_is_quoted() {
    let caps = vec![Capability::SplitVertical, Capability::SplitHorizontal, Capability::Tabs];
    for n in 0..4 {
        let some = caps[..n].to_vec();
        let quoted = format!(
            "unsupported request: {:?}",
            mxr::protocol::ClientToDaemon::Hello { version: 65535, capabilities: some.clone() }
        );
        assert_eq!(second_hello(65535, &some), quoted);
        assert!(second_hello_fits(65535, &some));
    }
    assert_eq!(
        second_hello(1, &vec![Capability::Tabs, Capability::Tabs]),
        "unsupported request: Hello { version: 1, capabilities: [Tabs, Tabs] }"
    );
}

#[test]
fn ordinary_reasons_fit() {
    assert!(write_failed_fits(""));
    assert!(write_failed_fits("größer"));
}
