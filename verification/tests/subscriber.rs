//! Subscriber sets: fan-out, the set-once install, and thread scoping.

use std::sync::{Arc, Mutex};

use tracing_wide::__private::facet;
use tracing_wide::__private::serde;
use tracing_wide::integration::AccessGranted;
use tracing_wide::subscriber::{dispatch, Installed, Route, Scope, Subscriber, Subscribers};
use tracing_wide::Message;

struct Tagger(&'static str, Arc<Mutex<Vec<&'static str>>>);

impl Subscriber<dyn Message> for Tagger {
    fn on_message(&self, msg: &dyn Message) {
        if msg.msg() == "access granted" {
            self.1.lock().unwrap().push(self.0);
        }
    }
}

type SinkSet = Subscribers<Box<dyn Subscriber<dyn Message>>>;

fn set_of(labels: &[&'static str], log: &Arc<Mutex<Vec<&'static str>>>) -> SinkSet {
    let mut set: SinkSet = Subscribers::default();
    for label in labels {
        set.register(Box::new(Tagger(label, log.clone())));
    }
    set
}

#[test]
fn fanout_reaches_every_subscriber_in_order() {
    let log = Arc::new(Mutex::new(Vec::new()));
    let set = set_of(&["first", "second"], &log);
    assert_eq!(set.len(), 2);
    let notified = set.dispatch::<dyn Message>(&AccessGranted { user: "u" });
    assert_eq!(notified, 2);
    assert_eq!(*log.lock().unwrap(), vec!["first", "second"]);
}

#[test]
fn an_empty_set_notifies_no_one() {
    let set: SinkSet = Subscribers::new();
    assert_eq!(set.len(), 0);
    assert_eq!(set.dispatch::<dyn Message>(&AccessGranted { user: "u" }), 0);
}

#[test]
fn subscriber_registry_installs_exactly_once() {
    let log = Arc::new(Mutex::new(Vec::new()));
    let mut slot: Installed<Box<dyn Subscriber<dyn Message>>> = Installed::new();
    assert!(slot.current().is_none());
    assert!(set_of(&["global"], &log).install(&mut slot).is_ok(), "first install wins");
    let refused = set_of(&["late", "later"], &log).install(&mut slot);
    let back = refused.err().expect("the registry installs exactly once");
    assert_eq!(back.len(), 2, "the refused set is handed back");
    assert_eq!(slot.current().unwrap().len(), 1);
}

#[test]
fn scoped_set_overrides_the_installed_one() {
    let log = Arc::new(Mutex::new(Vec::new()));
    let mut slot = Installed::new();
    let _ = set_of(&["global"], &log).install(&mut slot);
    let mut scope = Scope::new();
    let msg = AccessGranted { user: "u" };

    let installed = slot.current();
    let route = dispatch::<Box<dyn Subscriber<dyn Message>>, dyn Message>(
        scope.current().as_deref(),
        installed.as_deref(),
        &msg,
    );
    assert_eq!(route, Route::Installed);

    let guard = set_of(&["scoped"], &log).set_default(&mut scope);
    let route = dispatch::<Box<dyn Subscriber<dyn Message>>, dyn Message>(
        scope.current().as_deref(),
        installed.as_deref(),
        &msg,
    );
    assert_eq!(route, Route::Scoped);
    guard.restore(&mut scope);
    assert!(scope.current().is_none());

    let empty: Scope<Box<dyn Subscriber<dyn Message>>> = Scope::new();
    let route = dispatch::<Box<dyn Subscriber<dyn Message>>, dyn Message>(
        empty.current().as_deref(),
        None,
        &msg,
    );
    assert_eq!(route, Route::Nobody);
    assert_eq!(*log.lock().unwrap(), vec!["global", "scoped"]);
}

#[test]
fn nested_scopes_restore_in_turn() {
    let log = Arc::new(Mutex::new(Vec::new()));
    let mut scope = Scope::new();
    let outer = set_of(&["outer"], &log).set_default(&mut scope);
    let inner = set_of(&["inner", "inner2"], &log).set_default(&mut scope);
    assert_eq!(scope.current().unwrap().len(), 2);
    inner.restore(&mut scope);
    assert_eq!(scope.current().unwrap().len(), 1);
    outer.restore(&mut scope);
    assert!(scope.current().is_none());
}

#[test]
fn with_default_scopes_the_closure_only() {
    let log = Arc::new(Mutex::new(Vec::new()));
    let mut scope = Scope::new();
    let msg = AccessGranted { user: "u" };
    let seen = set_of(&["ping"], &log).with_default(&mut scope, |s| {
        let current = s.current().expect("the set is scoped");
        current.dispatch::<dyn Message>(&msg)
    });
    assert_eq!(seen, 1);
    assert!(scope.current().is_none());
    assert_eq!(*log.lock().unwrap(), vec!["ping"]);
}

#[test]
fn probes_borrow_the_message() {
    let msg = AccessGranted { user: "u" };
    assert_eq!(facet::Probe::new(&msg).0.user, "u");
    assert_eq!(serde::Probe::new(&msg).0.user, "u");
}
