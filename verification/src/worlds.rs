//! Several channels as one world, so that the arms of one select can be on different channels.
//!
//! A [`Bank`] holds any number of channels of one kind, and [`Nth`] puts an arm on one of them. A
//! pair holds two worlds of different kinds, and [`Side`] puts an arm on one of them. The two can
//! be nested.
use vstd::prelude::*;

use crate::selectable::{ArmOpTrait, Channels};
use crate::waiter::SelectWaiter;

verus! {

// ── Many channels of one kind ────────────────────────────────────────────────
/// Channels of one kind, by index.
pub struct Bank<C> {
    pub chans: Vec<C>,
}

impl<C: Channels> Channels for Bank<C> {
    type State = Seq<C::State>;

    /// The index of a channel, and a port of that channel.
    type Port = (int, C::Port);

    open spec fn state(&self) -> Seq<C::State> {
        Seq::new(self.chans@.len(), |i: int| self.chans@[i].state())
    }

    open spec fn valid(&self) -> bool {
        forall|i: int| 0 <= i < self.chans@.len() ==> (#[trigger] self.chans@[i]).valid()
    }

    open spec fn has_port(s: Seq<C::State>, port: (int, C::Port)) -> bool {
        0 <= port.0 < s.len() && C::has_port(s[port.0], port.1)
    }

    open spec fn stack(s: Seq<C::State>, port: (int, C::Port)) -> Seq<SelectWaiter> {
        if 0 <= port.0 < s.len() {
            C::stack(s[port.0], port.1)
        } else {
            Seq::empty()
        }
    }

    open spec fn with_stack(
        s: Seq<C::State>,
        port: (int, C::Port),
        waiters: Seq<SelectWaiter>,
    ) -> Seq<C::State> {
        s.update(port.0, C::with_stack(s[port.0], port.1, waiters))
    }

    proof fn stacks_are_independent(
        s: Seq<C::State>,
        port: (int, C::Port),
        other: (int, C::Port),
        waiters: Seq<SelectWaiter>,
    ) {
        C::stacks_are_independent(s[port.0], port.1, other.1, waiters);
    }
}

/// An arm on the channel at an index of a bank.
pub struct Nth<A> {
    pub index: usize,
    pub op: A,
}

impl<A: ArmOpTrait> ArmOpTrait for Nth<A> {
    type World = Bank<A::World>;

    open spec fn fits(&self, s: Seq<<A::World as Channels>::State>) -> bool {
        self.index < s.len() && self.op.fits(s[self.index as int])
    }

    open spec fn ready(&self, s: Seq<<A::World as Channels>::State>) -> bool {
        self.op.ready(s[self.index as int])
    }

    open spec fn looked(&self, s: Seq<<A::World as Channels>::State>) -> Self {
        Nth { index: self.index, op: self.op.looked(s[self.index as int]) }
    }

    open spec fn enrolled(&self, s: Seq<<A::World as Channels>::State>) -> Self {
        Nth { index: self.index, op: self.op.enrolled(s[self.index as int]) }
    }

    open spec fn enlists(&self, s: Seq<<A::World as Channels>::State>) -> bool {
        self.op.enlists(s[self.index as int])
    }

    open spec fn port(&self) -> (int, <A::World as Channels>::Port) {
        (self.index as int, self.op.port())
    }

    proof fn readiness_is_stable(
        &self,
        s: Seq<<A::World as Channels>::State>,
        port: (int, <A::World as Channels>::Port),
        waiters: Seq<SelectWaiter>,
    ) {
        self.op.readiness_is_stable(s[self.index as int], port.1, waiters);
    }

    fn is_ready(&mut self, world: &Bank<A::World>) -> (r: bool) {
        assert(world.state()[self.index as int] == world.chans@[self.index as int].state());
        self.op.is_ready(&world.chans[self.index])
    }

    fn register_select(
        &mut self,
        world: &mut Bank<A::World>,
        case_id: usize,
        selected: u64,
        thread: u64,
    ) {
        let ghost before = *world;
        assert(world.state()[self.index as int] == world.chans@[self.index as int].state());
        self.op.register_select(&mut world.chans[self.index], case_id, selected, thread);
        assert(world.state() =~= before.state().update(
            self.index as int,
            world.chans@[self.index as int].state(),
        ));
        assert(before.state() =~= before.state().update(
            self.index as int,
            before.state()[self.index as int],
        ));
    }

    fn abort_select(&self, world: &mut Bank<A::World>, selected: u64) {
        let ghost before = *world;
        assert(world.state()[self.index as int] == world.chans@[self.index as int].state());
        self.op.abort_select(&mut world.chans[self.index], selected);
        assert(world.state() =~= before.state().update(
            self.index as int,
            world.chans@[self.index as int].state(),
        ));
        assert(before.state() =~= before.state().update(
            self.index as int,
            before.state()[self.index as int],
        ));
    }
}

// ── Two worlds of different kinds ────────────────────────────────────────────
/// Something of the first or of the second of two worlds.
pub enum Side<A, B> {
    First(A),
    Second(B),
}

impl<V: Channels, W: Channels> Channels for (V, W) {
    type State = (V::State, W::State);

    type Port = Side<V::Port, W::Port>;

    open spec fn state(&self) -> (V::State, W::State) {
        (self.0.state(), self.1.state())
    }

    open spec fn valid(&self) -> bool {
        self.0.valid() && self.1.valid()
    }

    open spec fn has_port(s: (V::State, W::State), port: Side<V::Port, W::Port>) -> bool {
        match port {
            Side::First(p) => V::has_port(s.0, p),
            Side::Second(p) => W::has_port(s.1, p),
        }
    }

    open spec fn stack(s: (V::State, W::State), port: Side<V::Port, W::Port>) -> Seq<SelectWaiter> {
        match port {
            Side::First(p) => V::stack(s.0, p),
            Side::Second(p) => W::stack(s.1, p),
        }
    }

    open spec fn with_stack(
        s: (V::State, W::State),
        port: Side<V::Port, W::Port>,
        waiters: Seq<SelectWaiter>,
    ) -> (V::State, W::State) {
        match port {
            Side::First(p) => (V::with_stack(s.0, p, waiters), s.1),
            Side::Second(p) => (s.0, W::with_stack(s.1, p, waiters)),
        }
    }

    proof fn stacks_are_independent(
        s: (V::State, W::State),
        port: Side<V::Port, W::Port>,
        other: Side<V::Port, W::Port>,
        waiters: Seq<SelectWaiter>,
    ) {
        match (port, other) {
            (Side::First(p), Side::First(q)) => V::stacks_are_independent(s.0, p, q, waiters),
            (Side::Second(p), Side::Second(q)) => W::stacks_are_independent(s.1, p, q, waiters),
            (Side::First(p), Side::Second(_)) => V::stacks_are_independent(s.0, p, p, waiters),
            (Side::Second(p), Side::First(_)) => W::stacks_are_independent(s.1, p, p, waiters),
        }
    }
}

impl<A: ArmOpTrait, B: ArmOpTrait> ArmOpTrait for Side<A, B> {
    type World = (A::World, B::World);

    open spec fn fits(
        &self,
        s: (<A::World as Channels>::State, <B::World as Channels>::State),
    ) -> bool {
        match *self {
            Side::First(op) => op.fits(s.0),
            Side::Second(op) => op.fits(s.1),
        }
    }

    open spec fn ready(
        &self,
        s: (<A::World as Channels>::State, <B::World as Channels>::State),
    ) -> bool {
        match *self {
            Side::First(op) => op.ready(s.0),
            Side::Second(op) => op.ready(s.1),
        }
    }

    open spec fn looked(
        &self,
        s: (<A::World as Channels>::State, <B::World as Channels>::State),
    ) -> Self {
        match *self {
            Side::First(op) => Side::First(op.looked(s.0)),
            Side::Second(op) => Side::Second(op.looked(s.1)),
        }
    }

    open spec fn enrolled(
        &self,
        s: (<A::World as Channels>::State, <B::World as Channels>::State),
    ) -> Self {
        match *self {
            Side::First(op) => Side::First(op.enrolled(s.0)),
            Side::Second(op) => Side::Second(op.enrolled(s.1)),
        }
    }

    open spec fn enlists(
        &self,
        s: (<A::World as Channels>::State, <B::World as Channels>::State),
    ) -> bool {
        match *self {
            Side::First(op) => op.enlists(s.0),
            Side::Second(op) => op.enlists(s.1),
        }
    }

    open spec fn port(&self) -> Side<<A::World as Channels>::Port, <B::World as Channels>::Port> {
        match *self {
            Side::First(op) => Side::First(op.port()),
            Side::Second(op) => Side::Second(op.port()),
        }
    }

    proof fn readiness_is_stable(
        &self,
        s: (<A::World as Channels>::State, <B::World as Channels>::State),
        port: Side<<A::World as Channels>::Port, <B::World as Channels>::Port>,
        waiters: Seq<SelectWaiter>,
    ) {
        match (*self, port) {
            (Side::First(op), Side::First(p)) => op.readiness_is_stable(s.0, p, waiters),
            (Side::Second(op), Side::Second(p)) => op.readiness_is_stable(s.1, p, waiters),
            (Side::First(op), Side::Second(_)) => op.readiness_is_stable(s.0, op.port(), waiters),
            (Side::Second(op), Side::First(_)) => op.readiness_is_stable(s.1, op.port(), waiters),
        }
    }

    fn is_ready(&mut self, world: &(A::World, B::World)) -> (r: bool) {
        match self {
            Side::First(op) => op.is_ready(&world.0),
            Side::Second(op) => op.is_ready(&world.1),
        }
    }

    fn register_select(
        &mut self,
        world: &mut (A::World, B::World),
        case_id: usize,
        selected: u64,
        thread: u64,
    ) {
        match self {
            Side::First(op) => op.register_select(&mut world.0, case_id, selected, thread),
            Side::Second(op) => op.register_select(&mut world.1, case_id, selected, thread),
        }
    }

    fn abort_select(&self, world: &mut (A::World, B::World), selected: u64) {
        match self {
            Side::First(op) => op.abort_select(&mut world.0, selected),
            Side::Second(op) => op.abort_select(&mut world.1, selected),
        }
    }
}

// ── Laws ─────────────────────────────────────────────────────────────────────
/// A bank shows the contents of each of its channels under its index, and an arm on one of them is
/// ready, registers and has its place there as it would on that channel alone.
pub proof fn law_arm_of_a_bank_is_on_its_channel<A: ArmOpTrait>(
    bank: Bank<A::World>,
    arm: Nth<A>,
    s: Seq<<A::World as Channels>::State>,
    i: int,
    waiters: Seq<SelectWaiter>,
)
    requires
        arm.index < s.len(),
        0 <= i < s.len(),
    ensures
        bank.state().len() == bank.chans@.len(),
        forall|k: int|
            0 <= k < bank.chans@.len() ==> #[trigger] bank.state()[k] == bank.chans@[k].state(),
        bank.valid() <==> forall|k: int|
            0 <= k < bank.chans@.len() ==> (#[trigger] bank.chans@[k]).valid(),
        arm.ready(s) == arm.op.ready(s[arm.index as int]),
        arm.fits(s) == arm.op.fits(s[arm.index as int]),
        arm.enlists(s) == arm.op.enlists(s[arm.index as int]),
        arm.looked(s) == (Nth { index: arm.index, op: arm.op.looked(s[arm.index as int]) }),
        arm.enrolled(s) == (Nth { index: arm.index, op: arm.op.enrolled(s[arm.index as int]) }),
        arm.port() == (arm.index as int, arm.op.port()),
        ({
            let port = arm.op.port();
            let after = <Bank<A::World> as Channels>::with_stack(s, arm.port(), waiters);
            &&& <Bank<A::World> as Channels>::has_port(s, arm.port()) == A::World::has_port(
                s[arm.index as int],
                port,
            )
            &&& <Bank<A::World> as Channels>::stack(s, arm.port()) == A::World::stack(
                s[arm.index as int],
                port,
            )
            &&& after.len() == s.len()
            &&& after[arm.index as int] == A::World::with_stack(
                s[arm.index as int],
                port,
                waiters,
            )
            &&& i != arm.index ==> after[i] == s[i]
        }),
{
}

/// A pair shows the contents of both its worlds, and an arm on one of them is ready, registers and
/// has its place there as it would on that world alone.
pub proof fn law_arm_of_a_pair_is_on_its_world<A: ArmOpTrait, B: ArmOpTrait>(
    pair: (A::World, B::World),
    a: A,
    b: B,
    s: (<A::World as Channels>::State, <B::World as Channels>::State),
    waiters: Seq<SelectWaiter>,
)
    ensures
        pair.state() == (pair.0.state(), pair.1.state()),
        pair.valid() == (pair.0.valid() && pair.1.valid()),
        Side::<A, B>::First(a).ready(s) == a.ready(s.0),
        Side::<A, B>::Second(b).ready(s) == b.ready(s.1),
        Side::<A, B>::First(a).fits(s) == a.fits(s.0),
        Side::<A, B>::Second(b).fits(s) == b.fits(s.1),
        Side::<A, B>::First(a).enlists(s) == a.enlists(s.0),
        Side::<A, B>::Second(b).enlists(s) == b.enlists(s.1),
        Side::<A, B>::First(a).looked(s) == Side::<A, B>::First(a.looked(s.0)),
        Side::<A, B>::Second(b).looked(s) == Side::<A, B>::Second(b.looked(s.1)),
        Side::<A, B>::First(a).enrolled(s) == Side::<A, B>::First(a.enrolled(s.0)),
        Side::<A, B>::Second(b).enrolled(s) == Side::<A, B>::Second(b.enrolled(s.1)),
        ({
            let first = Side::<A, B>::First(a).port();
            let second = Side::<A, B>::Second(b).port();
            &&& <(A::World, B::World) as Channels>::stack(s, first) == A::World::stack(
                s.0,
                a.port(),
            )
            &&& <(A::World, B::World) as Channels>::stack(s, second) == B::World::stack(
                s.1,
                b.port(),
            )
            &&& <(A::World, B::World) as Channels>::has_port(s, first) == A::World::has_port(
                s.0,
                a.port(),
            )
            &&& <(A::World, B::World) as Channels>::has_port(s, second) == B::World::has_port(
                s.1,
                b.port(),
            )
            &&& <(A::World, B::World) as Channels>::with_stack(s, first, waiters) == (
                A::World::with_stack(s.0, a.port(), waiters),
                s.1,
            )
            &&& <(A::World, B::World) as Channels>::with_stack(s, second, waiters) == (
                s.0,
                B::World::with_stack(s.1, b.port(), waiters),
            )
        }),
{
}

} // verus!
