//! Subscriber sets: the sinks that see each emitted message before it is
//! handed to tracing, the thread's scoped set that overrides the installed
//! one, and the choice between them.
//!
//! A set is built by registering subscribers into it, then either installed
//! once for the whole program or scoped to a thread: `set_default` makes it
//! the thread's set until its guard is restored, `with_default` for the
//! duration of a closure. A message fans out to the thread's scoped set if
//! there is one, else to the installed set, else to no one.

use vstd::prelude::*;

use std::sync::Arc;

verus! {

/// A sink for emitted messages. `M` is the view of a message the sinks
/// receive (`dyn Message` or an extension of it).
pub trait Subscriber<M: ?Sized>: Send + Sync {
    fn on_message(&self, msg: &M);
}

/// A boxed subscriber, such as a boxed trait object, is a subscriber.
impl<M: ?Sized, T: Subscriber<M> + ?Sized> Subscriber<M> for Box<T> {
    fn on_message(&self, msg: &M) {
        (**self).on_message(msg)
    }
}

/// A set of subscribers: registered in order, notified in that order. `S`
/// is the subscribers' type, typically a boxed trait object.
pub struct Subscribers<S> {
    entries: Vec<S>,
}

/// Which set a message fanned out to.
#[derive(Debug, Clone, Copy, PartialEq, Eq, Structural)]
pub enum Route {
    /// The calling thread's scoped set.
    Scoped,
    /// The installed set.
    Installed,
    /// No set was active.
    Nobody,
}

impl<S> Subscribers<S> {
    /// The registered subscribers, in registration order.
    pub closed spec fn members(&self) -> Seq<S> {
        self.entries@
    }

    /// The number of registered subscribers.
    pub open spec fn count(&self) -> nat {
        self.members().len()
    }

    /// Every subscriber of the set has received `msg`.
    pub open spec fn notified_all<M: ?Sized>(&self, msg: &M) -> bool where S: Subscriber<M> {
        forall|j: int|
            0 <= j < self.count() ==> call_ensures(
                S::on_message,
                (&#[trigger] self.members()[j], msg),
                (),
            )
    }

    /// An empty set.
    pub fn new() -> (r: Self)
        ensures
            r.members() == Seq::<S>::empty(),
    {
        Subscribers { entries: Vec::new() }
    }

    /// The number of registered subscribers.
    pub fn len(&self) -> (r: usize)
        ensures
            r == self.count(),
    {
        self.entries.len()
    }

    /// Adds a subscriber to the set, after those already registered.
    pub fn register(&mut self, subscriber: S)
        ensures
            final(self).members() == old(self).members().push(subscriber),
    {
        self.entries.push(subscriber);
    }

    /// Fans a message out to every subscriber of the set, in registration
    /// order; returns how many were notified.
    pub fn dispatch<M: ?Sized>(&self, msg: &M) -> (notified: usize) where S: Subscriber<M>
        ensures
            notified == self.count(),
            self.notified_all(msg),
    {
        let n = self.entries.len();
        let mut i: usize = 0;
        while i < n
            invariant
                n == self.entries@.len(),
                i <= n,
                forall|j: int|
                    0 <= j < i ==> call_ensures(
                        S::on_message,
                        (&#[trigger] self.entries@[j], msg),
                        (),
                    ),
            decreases n - i,
        {
            self.entries[i].on_message(msg);
            i = i + 1;
        }
        n
    }
}

impl<S> Default for Subscribers<S> {
    /// An empty set.
    fn default() -> (r: Self)
        ensures
            r.members() == Seq::<S>::empty(),
    {
        Subscribers::new()
    }
}

/// `Arc::clone`: another handle to the same set.
#[verifier::external_body]
fn share<S>(set: &Arc<Subscribers<S>>) -> (r: Arc<Subscribers<S>>)
    ensures
        *r == **set,
{
    Arc::clone(set)
}

/// A thread's scoped set, if one is held.
pub struct Scope<S> {
    current: Option<Arc<Subscribers<S>>>,
}

/// The program's installed set: empty until the first `install`, then fixed.
pub struct Installed<S> {
    set: Option<Arc<Subscribers<S>>>,
}

impl<S> Installed<S> {
    /// The installed set, if one was installed.
    pub closed spec fn active(&self) -> Option<Subscribers<S>> {
        held(self.set)
    }

    /// No set installed yet.
    pub fn new() -> (r: Self)
        ensures
            r.active() is None,
    {
        Installed { set: None }
    }

    /// A handle to the installed set, if one was installed.
    pub fn current(&self) -> (r: Option<Arc<Subscribers<S>>>)
        ensures
            held(r) == self.active(),
    {
        match &self.set {
            Some(set) => Some(share(set)),
            None => None,
        }
    }
}

/// `install` of `set` on a program whose installed set was `before` left
/// `after` installed and returned `r`: the set is taken when none was
/// installed, else handed back with the installed set unchanged.
pub open spec fn installs<S>(
    before: Option<Subscribers<S>>,
    set: Subscribers<S>,
    after: Option<Subscribers<S>>,
    r: Result<(), Subscribers<S>>,
) -> bool {
    if before is None {
        r is Ok && after == Some(set)
    } else {
        r == Err::<(), Subscribers<S>>(set) && after == before
    }
}

/// The scoped set that `set_default` replaced, to be restored when the
/// scope ends.
#[must_use]
pub struct DefaultGuard<S>(Option<Arc<Subscribers<S>>>);

/// The set an optional handle holds.
pub open spec fn held<S>(h: Option<Arc<Subscribers<S>>>) -> Option<Subscribers<S>> {
    match h {
        Some(a) => Some(*a),
        None => None,
    }
}

impl<S> Scope<S> {
    /// The scoped set, if one is held.
    pub closed spec fn active(&self) -> Option<Subscribers<S>> {
        held(self.current)
    }

    /// A scope that holds no set.
    pub fn new() -> (r: Self)
        ensures
            r.active() is None,
    {
        Scope { current: None }
    }

    /// A handle to the scoped set, if one is held.
    pub fn current(&self) -> (r: Option<Arc<Subscribers<S>>>)
        ensures
            held(r) == self.active(),
    {
        match &self.current {
            Some(set) => Some(share(set)),
            None => None,
        }
    }
}

impl<S> DefaultGuard<S> {
    /// The scoped set the guard restores.
    pub closed spec fn saved(&self) -> Option<Subscribers<S>> {
        held(self.0)
    }

    /// Ends the scope: the set the guard saved becomes the scoped set again.
    pub fn restore(self, scope: &mut Scope<S>)
        ensures
            restores(self, *final(scope)),
    {
        scope.current = self.0;
    }
}

/// `set_default` of `set` on the scope `before` left the scope `after` and
/// returned `guard`: the set is the scope's set, and the guard keeps the set
/// it replaced.
pub open spec fn sets_default<S>(
    before: Scope<S>,
    set: Subscribers<S>,
    after: Scope<S>,
    guard: DefaultGuard<S>,
) -> bool {
    after.active() == Some(set) && guard.saved() == before.active()
}

/// `restore` of `guard` left the scope `after`: the scope holds the set the
/// guard kept.
pub open spec fn restores<S>(guard: DefaultGuard<S>, after: Scope<S>) -> bool {
    after.active() == guard.saved()
}

impl<S> Subscribers<S> {
    /// Installs this set as the program's set. Only the first install takes
    /// effect: when a set is already installed, this set is handed back as
    /// `Err` and the installed set stays as it is.
    pub fn install(self, slot: &mut Installed<S>) -> (r: Result<(), Subscribers<S>>)
        ensures
            installs(old(slot).active(), self, final(slot).active(), r),
    {
        if slot.set.is_some() {
            return Err(self);
        }
        slot.set = Some(Arc::new(self));
        Ok(())
    }

    /// Makes this set the scope's set until the returned guard is restored;
    /// the guard keeps the set it replaced.
    pub fn set_default(self, scope: &mut Scope<S>) -> (guard: DefaultGuard<S>)
        ensures
            sets_default(*old(scope), self, *final(scope), guard),
    {
        let previous = scope.current.take();
        scope.current = Some(Arc::new(self));
        DefaultGuard(previous)
    }

    /// Runs `f` with this set as the scope's set, then restores the scope to
    /// what it was.
    pub fn with_default<T, F: FnOnce(&Scope<S>) -> T>(self, scope: &mut Scope<S>, f: F) -> (r: T)
        requires
            forall|s: &Scope<S>| s.active() == Some(self) ==> f.requires((s,)),
        ensures
            final(scope).active() == old(scope).active(),
            exists|s: &Scope<S>| s.active() == Some(self) && f.ensures((s,), r),
    {
        let ghost set = self;
        let guard = self.set_default(scope);
        let r = f(&*scope);
        guard.restore(scope);
        r
    }
}

/// Fans a message out to the active set: the calling thread's scoped set if
/// one is held, else the installed set, else no one.
pub fn dispatch<S: Subscriber<M>, M: ?Sized>(
    scoped: Option<&Subscribers<S>>,
    installed: Option<&Subscribers<S>>,
    msg: &M,
) -> (r: Route)
    ensures
        r == (if scoped is Some {
            Route::Scoped
        } else if installed is Some {
            Route::Installed
        } else {
            Route::Nobody
        }),
        r == Route::Scoped ==> scoped.unwrap().notified_all(msg),
        r == Route::Installed ==> installed.unwrap().notified_all(msg),
{
    match scoped {
        Some(set) => {
            set.dispatch(msg);
            Route::Scoped
        },
        None => match installed {
            Some(set) => {
                set.dispatch(msg);
                Route::Installed
            },
            None => Route::Nobody,
        },
    }
}

/// Restoring the guard of `set_default` undoes it: the scope holds again the
/// set it held before.
pub proof fn law_guard_restores_scope<S>(
    before: Scope<S>,
    set: Subscribers<S>,
    during: Scope<S>,
    guard: DefaultGuard<S>,
    after: Scope<S>,
)
    requires
        sets_default(before, set, during, guard),
        restores(guard, after),
    ensures
        after.active() == before.active(),
{
}

/// Nested scopes unwind in turn: restoring the inner guard brings back the
/// outer set, and restoring the outer guard then brings back what the scope
/// held before either.
pub proof fn law_nested_scopes_restore_in_turn<S>(
    before: Scope<S>,
    outer: Subscribers<S>,
    in_outer: Scope<S>,
    outer_guard: DefaultGuard<S>,
    inner: Subscribers<S>,
    in_inner: Scope<S>,
    inner_guard: DefaultGuard<S>,
    back_in_outer: Scope<S>,
    after: Scope<S>,
)
    requires
        sets_default(before, outer, in_outer, outer_guard),
        sets_default(in_outer, inner, in_inner, inner_guard),
        restores(inner_guard, back_in_outer),
        restores(outer_guard, after),
    ensures
        in_inner.active() == Some(inner),
        back_in_outer.active() == Some(outer),
        after.active() == before.active(),
{
}

/// The program installs a set exactly once: on a fresh program the first
/// install succeeds, and a second one is refused with its set handed back,
/// leaving the first set installed.
pub proof fn law_first_install_wins<S>(
    first: Subscribers<S>,
    after_first: Option<Subscribers<S>>,
    r_first: Result<(), Subscribers<S>>,
    second: Subscribers<S>,
    after_second: Option<Subscribers<S>>,
    r_second: Result<(), Subscribers<S>>,
)
    requires
        installs(None, first, after_first, r_first),
        installs(after_first, second, after_second, r_second),
    ensures
        r_first is Ok,
        r_second == Err::<(), Subscribers<S>>(second),
        after_second == Some(first),
{
}

} // verus!
