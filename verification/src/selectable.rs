//! What a channel end must offer to take part in a select.
//!
//! A select works on a set of channels, its *world*, and on arms that each watch one side of one of
//! them. The world is described by [`Channels`]: it has ports, and every port has a stack of select
//! waiters. The arms are described by [`ArmOpTrait`]: each belongs to a port and is ready or not,
//! which depends on the state of the world but not on the waiters in it.
use vstd::prelude::*;

use crate::error::{RecvError, SendError};
use crate::ports::Step;
use crate::waiter::{aborted, Board, BoardView, SelectWaiter};

verus! {

/// The select waiters at a port, the topmost last.
pub type Waiters = Seq<SelectWaiter>;

/// One or more channels that arms of a select can wait on.
pub trait Channels {
    /// The contents of the channels.
    type State;

    /// Names a stack of select waiters.
    type Port;

    /// The contents of the channels.
    spec fn state(&self) -> Self::State;

    /// The internal invariants hold.
    spec fn valid(&self) -> bool;

    /// There is a stack of select waiters at the port.
    spec fn has_port(s: Self::State, port: Self::Port) -> bool;

    /// The select waiters at the port.
    spec fn stack(s: Self::State, port: Self::Port) -> Waiters;

    /// The contents with other select waiters at the port.
    spec fn with_stack(s: Self::State, port: Self::Port, waiters: Waiters) -> Self::State;

    /// Replacing the waiters at one port changes the waiters at no other port.
    proof fn stacks_are_independent(
        s: Self::State,
        port: Self::Port,
        other: Self::Port,
        waiters: Waiters,
    )
        requires
            Self::has_port(s, port),
        ensures
            Self::stack(Self::with_stack(s, port, waiters), port) == waiters,
            other != port ==> Self::stack(Self::with_stack(s, port, waiters), other) == Self::stack(
                s,
                other,
            ),
            Self::has_port(Self::with_stack(s, port, waiters), other) == Self::has_port(s, other),
    ;
}

/// The contents with one more waiter at the port.
pub open spec fn enlisted<C: Channels>(
    s: C::State,
    port: C::Port,
    waiter: SelectWaiter,
) -> C::State {
    C::with_stack(s, port, C::stack(s, port).push(waiter))
}

/// The contents with the waiters of one select call at the port aborted.
pub open spec fn delisted<C: Channels>(s: C::State, port: C::Port, cell: u64) -> C::State {
    if C::has_port(s, port) {
        C::with_stack(s, port, aborted(C::stack(s, port), cell))
    } else {
        s
    }
}

/// What recv arms and send arms have in common.
pub trait ArmOpTrait: Sized {
    /// The channels that the arm looks at.
    type World: Channels;

    /// The arm belongs to channels with these contents.
    spec fn fits(&self, s: <Self::World as Channels>::State) -> bool;

    /// The operation can complete without waiting, be it with an error.
    spec fn ready(&self, s: <Self::World as Channels>::State) -> bool;

    /// The arm after a look at its readiness.
    spec fn looked(&self, s: <Self::World as Channels>::State) -> Self;

    /// The arm after it was registered.
    spec fn enrolled(&self, s: <Self::World as Channels>::State) -> Self;

    /// Registering leaves a waiter behind.
    spec fn enlists(&self, s: <Self::World as Channels>::State) -> bool;

    /// Where the arm's waiters go.
    spec fn port(&self) -> <Self::World as Channels>::Port;

    /// Readiness does not depend on the select waiters; looking and registering do not change it;
    /// and an arm that leaves no waiter behind is ready.
    proof fn readiness_is_stable(
        &self,
        s: <Self::World as Channels>::State,
        port: <Self::World as Channels>::Port,
        waiters: Waiters,
    )
        requires
            self.fits(s),
        ensures
            Self::World::has_port(s, port) ==> {
                let t = Self::World::with_stack(s, port, waiters);
                self.fits(t) && self.ready(t) == self.ready(s) && self.enlists(t) == self.enlists(s)
            },
            self.looked(s).fits(s),
            self.looked(s).ready(s) == self.ready(s),
            self.looked(s).enlists(s) == self.enlists(s),
            self.looked(s).port() == self.port(),
            self.enrolled(s).fits(s),
            self.enrolled(s).ready(s) == self.ready(s),
            self.enrolled(s).port() == self.port(),
            self.enlists(s) ==> Self::World::has_port(s, self.port()),
            !self.enlists(s) ==> self.ready(s),
    ;

    /// Whether the operation can complete without waiting, be it with an error.
    fn is_ready(&mut self, world: &Self::World) -> (r: bool)
        requires
            world.valid(),
            old(self).fits(world.state()),
        ensures
            r == old(self).ready(world.state()),
            *final(self) == old(self).looked(world.state()),
    ;

    /// Leaves a waiter for arm `case_id` of the select call whose cell is `selected`.
    fn register_select(
        &mut self,
        world: &mut Self::World,
        case_id: usize,
        selected: u64,
        thread: u64,
    )
        requires
            old(world).valid(),
            old(self).fits(old(world).state()),
        ensures
            final(world).valid(),
            *final(self) == old(self).enrolled(old(world).state()),
            final(world).state() == (if old(self).enlists(old(world).state()) {
                enlisted::<Self::World>(
                    old(world).state(),
                    old(self).port(),
                    SelectWaiter { case_id, selected, thread, aborted: false },
                )
            } else {
                old(world).state()
            }),
    ;

    /// Aborts the waiters of the select call whose cell is `selected`.
    fn abort_select(&self, world: &mut Self::World, selected: u64)
        requires
            old(world).valid(),
            self.fits(old(world).state()),
        ensures
            final(world).valid(),
            final(world).state() == delisted::<Self::World>(
                old(world).state(),
                self.port(),
                selected,
            ),
    ;
}

/// A receiver that can stand in a recv arm.
///
/// The select protocol has four phases: try, register, park, complete.
pub trait SelectableReceiver: ArmOpTrait {
    /// The value that a successful receive produces.
    type Output;

    /// The token of a receive that waits.
    type Pending;

    /// How a completion may turn out: from the receiver, its channel and the board before to those
    /// after, with this result.
    spec fn completes(
        before: (Self, <Self::World as Channels>::State, BoardView),
        thread: u64,
        after: (Self, <Self::World as Channels>::State, BoardView),
        r: Step<Result<Self::Output, RecvError>, Self::Pending>,
    ) -> bool;

    /// An arm that is ready completes without waiting, if nothing has happened since.
    proof fn law_ready_arm_completes(
        before: (Self, <Self::World as Channels>::State, BoardView),
        thread: u64,
        after: (Self, <Self::World as Channels>::State, BoardView),
        r: Step<Result<Self::Output, RecvError>, Self::Pending>,
    )
        requires
            before.0.fits(before.1),
            before.0.ready(before.1),
            Self::completes(before, thread, after, r),
        ensures
            r is Done,
    ;

    /// An arm that has been looked at and is not ready has to wait: readiness is exactly that a
    /// completion does not wait.
    proof fn law_idle_arm_waits(
        before: (Self, <Self::World as Channels>::State, BoardView),
        thread: u64,
        after: (Self, <Self::World as Channels>::State, BoardView),
        r: Step<Result<Self::Output, RecvError>, Self::Pending>,
    )
        requires
            before.0.fits(before.1),
            !before.0.ready(before.1),
            before.0.looked(before.1) == before.0,
            Self::completes(before, thread, after, r),
        ensures
            r is Wait,
    ;

    /// Receives after the arm was selected.
    fn complete(&mut self, world: &mut Self::World, board: &mut Board, thread: u64) -> (r: Step<
        Result<Self::Output, RecvError>,
        Self::Pending,
    >)
        requires
            old(world).valid(),
            old(board).wf(),
            old(self).fits(old(world).state()),
        ensures
            final(world).valid(),
            final(board).wf(),
            final(self).fits(final(world).state()),
            Self::completes(
                (*old(self), old(world).state(), old(board)@),
                thread,
                (*final(self), final(world).state(), final(board)@),
                r,
            ),
    ;
}

/// A sender that can stand in a send arm.
pub trait SelectableSender: ArmOpTrait {
    /// The value that the sender accepts.
    type Input: Send;

    /// The token of a send that waits.
    type Pending;

    /// How a completion may turn out: from the sender's channel and the board before to those
    /// after, with this result.
    spec fn sends(
        &self,
        before: (<Self::World as Channels>::State, BoardView),
        value: Self::Input,
        thread: u64,
        after: (<Self::World as Channels>::State, BoardView),
        r: Step<Result<(), SendError<Self::Input>>, Self::Pending>,
    ) -> bool;

    /// A send that fails hands back the very value it was given, and a send arm that is not ready
    /// does not succeed at once.
    proof fn law_send_arm_is_honest(
        &self,
        before: (<Self::World as Channels>::State, BoardView),
        value: Self::Input,
        thread: u64,
        after: (<Self::World as Channels>::State, BoardView),
        r: Step<Result<(), SendError<Self::Input>>, Self::Pending>,
    )
        requires
            self.fits(before.0),
            self.sends(before, value, thread, after, r),
        ensures
            r matches Step::Done(Err(e)) ==> e.0 == value,
            !self.ready(before.0) ==> !(r matches Step::Done(Ok(_))),
    ;

    /// Sends after the arm was selected.
    fn complete_send(
        &self,
        world: &mut Self::World,
        board: &mut Board,
        thread: u64,
        value: Self::Input,
    ) -> (r: Step<Result<(), SendError<Self::Input>>, Self::Pending>)
        requires
            old(world).valid(),
            old(board).wf(),
            self.fits(old(world).state()),
        ensures
            final(world).valid(),
            final(board).wf(),
            self.sends(
                (old(world).state(), old(board)@),
                value,
                thread,
                (final(world).state(), final(board)@),
                r,
            ),
    ;
}

/// Enlisting puts the waiter on top of the stack at its port, and delisting marks the call's
/// waiters there and no others; other ports keep their waiters.
pub proof fn law_lists_change_at_their_port<C: Channels>(
    s: C::State,
    port: C::Port,
    other: C::Port,
    waiter: SelectWaiter,
    cell: u64,
)
    requires
        C::has_port(s, port),
    ensures
        C::stack(enlisted::<C>(s, port, waiter), port) == C::stack(s, port).push(waiter),
        C::stack(delisted::<C>(s, port, cell), port) == C::stack(s, port).map_values(
            |w: SelectWaiter|
                SelectWaiter {
                    case_id: w.case_id,
                    selected: w.selected,
                    thread: w.thread,
                    aborted: w.aborted || w.selected == cell,
                },
        ),
        other != port ==> C::stack(enlisted::<C>(s, port, waiter), other) == C::stack(s, other)
            && C::stack(delisted::<C>(s, port, cell), other) == C::stack(s, other),
{
    let stack = C::stack(s, port);
    C::stacks_are_independent(s, port, other, stack.push(waiter));
    C::stacks_are_independent(s, port, other, aborted(stack, cell));
    assert(aborted(stack, cell) =~= stack.map_values(
        |w: SelectWaiter|
            SelectWaiter {
                case_id: w.case_id,
                selected: w.selected,
                thread: w.thread,
                aborted: w.aborted || w.selected == cell,
            },
    ));
}

} // verus!
