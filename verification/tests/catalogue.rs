//! The catalogue: descriptors and the duplicate-`msg` check.

use core::any::TypeId;

use tracing_wide::catalogue::{duplicates, FieldDescriptor, LevelName, MessageDescriptor};
use tracing_wide::Origin;

struct AltA;
struct AltB;
struct DupA;
struct DupB;
struct DupC;
struct Started;
struct Renamed;

const ORIGIN: Origin = Origin {
    column: 1,
    file: "tests/catalogue.rs",
    krate: "tracing-wide",
    line: 1,
    module: "catalogue",
};

static STARTED_FIELDS: [FieldDescriptor; 1] = [FieldDescriptor {
    deprecated: None,
    doc: Some("Logical name of the service."),
    meta: &[],
    name: "service",
    field_type: "& 'static str",
}];

fn descriptor(msg: &'static str, type_id: TypeId) -> MessageDescriptor {
    MessageDescriptor {
        deprecated: None,
        doc: None,
        fields: &[],
        level: LevelName::INFO,
        meta: &[],
        msg,
        origin: ORIGIN,
        tags: &[],
        type_id,
    }
}

#[test]
fn catalogue_reports_duplicate_msgs() {
    let catalogue = vec![
        MessageDescriptor {
            deprecated: None,
            doc: Some("Emitted when a service finishes starting up."),
            fields: &STARTED_FIELDS,
            level: LevelName::WARN,
            meta: &[("owner", "platform")],
            msg: "service started",
            origin: ORIGIN,
            tags: &["platform", "startup"],
            type_id: TypeId::of::<Started>(),
        },
        descriptor("duplicated msg", TypeId::of::<DupA>()),
        descriptor("also duplicated", TypeId::of::<AltA>()),
        descriptor("Renamed", TypeId::of::<Renamed>()),
        descriptor("duplicated msg", TypeId::of::<DupB>()),
        descriptor("also duplicated", TypeId::of::<AltB>()),
        descriptor("duplicated msg", TypeId::of::<DupC>()),
    ];
    assert_eq!(duplicates(&catalogue), vec!["also duplicated", "duplicated msg"]);
}

#[test]
fn catalogue_of_unique_msgs_has_no_duplicates() {
    let catalogue = vec![
        descriptor("b", TypeId::of::<AltA>()),
        descriptor("a", TypeId::of::<AltB>()),
        descriptor("ab", TypeId::of::<DupA>()),
    ];
    assert_eq!(duplicates(&catalogue), Vec::<&str>::new());
    assert_eq!(duplicates(&[]), Vec::<&str>::new());
}

#[test]
fn catalogue_duplicates_are_sorted_by_text() {
    let catalogue = vec![
        descriptor("zeta", TypeId::of::<AltA>()),
        descriptor("alpha", TypeId::of::<AltB>()),
        descriptor("zeta", TypeId::of::<DupA>()),
        descriptor("alpha", TypeId::of::<DupB>()),
        descriptor("Zeta", TypeId::of::<DupC>()),
        descriptor("Zeta", TypeId::of::<Started>()),
    ];
    assert_eq!(duplicates(&catalogue), vec!["Zeta", "alpha", "zeta"]);
}

#[test]
fn level_names_are_canonical() {
    assert_eq!(LevelName::TRACE.as_str(), "TRACE");
    assert_eq!(LevelName::DEBUG.as_str(), "DEBUG");
    assert_eq!(LevelName::INFO.as_str(), "INFO");
    assert_eq!(LevelName::WARN.as_str(), "WARN");
    assert_eq!(LevelName::ERROR.as_str(), "ERROR");
}
