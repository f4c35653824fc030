//! Provenance, the message trait on concrete messages, and the text order.

use tracing_wide::catalogue::LevelName;
use tracing_wide::integration::{AccessGranted, RecordWritten};
use tracing_wide::text::{escape_format_braces, precedes, same_text, trim};
use tracing_wide::{Field, Message, Origin};

#[test]
fn origin_renders_compactly() {
    let origin = Origin {
        column: 7,
        file: "src/lib.rs",
        krate: "mycrate",
        line: 120,
        module: "mycrate::sub",
    };
    assert_eq!(origin.to_string(), "mycrate src/lib.rs:120:7");

    let zero = Origin { column: 0, file: "a.rs", krate: "k", line: 0, module: "k" };
    assert_eq!(zero.to_string(), "k a.rs:0:0");

    let big = Origin { column: 10, file: "f", krate: "c", line: u32::MAX, module: "c" };
    assert_eq!(big.to_string(), "c f:4294967295:10");
}

#[test]
fn foreign_messages_expose_their_attributes() {
    let granted = AccessGranted { user: "alice" };
    let dynamic: &dyn Message = &granted;
    assert_eq!(dynamic.msg(), "access granted");
    assert_eq!(dynamic.level(), LevelName::INFO);
    assert_eq!(dynamic.tags(), ["security"]);
    assert_eq!(dynamic.origin().krate, "integration-test-crate");
    assert!(dynamic.origin().file.ends_with("lib.rs"));
    assert!(dynamic.origin().module.starts_with("integration_test_crate"));
    assert_eq!(
        dynamic.origin().to_string(),
        "integration-test-crate integration-test-crate/src/lib.rs:10:12"
    );
    assert_eq!(AccessGranted::MSG, "access granted");

    let written = RecordWritten { key: "k1" };
    let dynamic: &dyn Message = &written;
    assert_eq!(dynamic.msg(), "record written");
    assert_eq!(dynamic.tags(), ["persist"]);
    assert_eq!(dynamic.origin().krate, "integration-test-crate");
    assert_eq!(dynamic.origin().line, 15);
    assert_eq!(RecordWritten::MSG, "record written");
    assert_eq!(written.key, "k1");
    assert_eq!(granted.user, "alice");
}

#[test]
fn text_order_is_the_str_order() {
    let words = ["", "a", "ab", "b", "B", "Zeta", "alpha", "é", "z", "zz"];
    for a in words {
        for b in words {
            assert_eq!(precedes(a, b), a < b, "{a:?} < {b:?}");
            assert_eq!(same_text(a, b), a == b, "{a:?} == {b:?}");
        }
    }
}

#[test]
fn braces_are_doubled_for_format_strings() {
    assert_eq!(escape_format_braces("rate {limit} hit"), "rate {{limit}} hit");
    assert_eq!(escape_format_braces("}{"), "}}{{");
    assert_eq!(escape_format_braces("plain"), "plain");
    assert_eq!(format!("{}", "x"), "x");
    let recorded = escape_format_braces("a {b} c");
    assert_eq!(recorded.replace("{{", "{").replace("}}", "}"), "a {b} c");
}

fn assert_field<T: Field + ?Sized>() {}

#[test]
fn field_accepts_what_tracing_records() {
    assert_field::<u8>();
    assert_field::<i128>();
    assert_field::<bool>();
    assert_field::<&'static str>();
    assert_field::<String>();
    assert_field::<Option<usize>>();
    assert_field::<Box<str>>();
    assert_field::<&'static mut u32>();
    assert_field::<&'static [u8]>();
    assert_field::<std::num::Wrapping<u16>>();
    assert_field::<std::fmt::Arguments<'static>>();
    assert_field::<tracing::field::DisplayValue<String>>();
    assert_field::<tracing::field::DebugValue<Vec<u8>>>();
    assert_field::<tracing::field::Empty>();
    assert_field::<Option<Box<&'static str>>>();
}

#[test]
fn trim_removes_unicode_white_space_at_both_ends() {
    let samples = [
        "",
        "   ",
        " A demo event.",
        "First line.  ",
        "\t\u{3000}wide\u{00A0}inner\u{2009} \n",
        "\u{1680}\u{2028}x\u{205F}",
        "no-space",
        "\u{200B}zero width is kept\u{200B}",
    ];
    for s in samples {
        assert_eq!(trim(s), s.trim(), "{s:?}");
    }
    assert_eq!(trim(" \u{3000}a b\u{00A0}\n"), "a b");
}
