//! Two message types defined the way `#[message]` defines them, standing for
//! messages that another crate contributes: `AccessGranted` (tag
//! `security`) and `RecordWritten` (tag `persist`). Their origin is that
//! crate's, `integration-test-crate`, where the two structs are written.

use vstd::prelude::*;

use crate::__private::{MessageBehaviour, Sealed};
use crate::catalogue::LevelName;
use crate::text::{strictly_sorted, texts};
use crate::{Message, Origin};

verus! {

/// `#[message(msg = "access granted", tags = ["security"])]`
pub struct AccessGranted {
    pub user: &'static str,
}

/// `#[message(msg = "record written", tags = ["persist"])]`
pub struct RecordWritten {
    pub key: &'static str,
}

impl AccessGranted {
    /// The static message text.
    pub const MSG: &'static str = "access granted";
}

impl RecordWritten {
    /// The static message text.
    pub const MSG: &'static str = "record written";
}

impl Sealed for AccessGranted {}

impl Sealed for RecordWritten {}

impl MessageBehaviour for AccessGranted {}

impl MessageBehaviour for RecordWritten {}

impl Message for AccessGranted {
    fn level(&self) -> (r: LevelName)
        ensures
            r == LevelName::INFO,
    {
        LevelName::INFO
    }

    fn msg(&self) -> (r: &'static str)
        ensures
            r@ == Self::MSG@,
    {
        Self::MSG
    }

    fn origin(&self) -> (r: &'static Origin)
        ensures
            *r == (Origin {
                column: 12,
                file: "integration-test-crate/src/lib.rs",
                krate: "integration-test-crate",
                line: 10,
                module: "integration_test_crate",
            }),
    {
        &Origin {
            column: 12,
            file: "integration-test-crate/src/lib.rs",
            krate: "integration-test-crate",
            line: 10,
            module: "integration_test_crate",
        }
    }

    fn tags(&self) -> (r: &'static [&'static str])
        ensures
            texts(r@) == seq!["security"@],
    {
        let tags: &'static [&'static str] = &["security"];
        assert(texts(tags@) =~= seq!["security"@]);
        tags
    }
}

impl Message for RecordWritten {
    fn level(&self) -> (r: LevelName)
        ensures
            r == LevelName::INFO,
    {
        LevelName::INFO
    }

    fn msg(&self) -> (r: &'static str)
        ensures
            r@ == Self::MSG@,
    {
        Self::MSG
    }

    fn origin(&self) -> (r: &'static Origin)
        ensures
            *r == (Origin {
                column: 12,
                file: "integration-test-crate/src/lib.rs",
                krate: "integration-test-crate",
                line: 15,
                module: "integration_test_crate",
            }),
    {
        &Origin {
            column: 12,
            file: "integration-test-crate/src/lib.rs",
            krate: "integration-test-crate",
            line: 15,
            module: "integration_test_crate",
        }
    }

    fn tags(&self) -> (r: &'static [&'static str])
        ensures
            texts(r@) == seq!["persist"@],
    {
        let tags: &'static [&'static str] = &["persist"];
        assert(texts(tags@) =~= seq!["persist"@]);
        tags
    }
}

} // verus!
