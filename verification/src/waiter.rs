//! Waiter bookkeeping for blocking receives and for `select` operations.
//!
//! A thread that has to wait leaves a waiter behind: a [`RecvWaiter`] in a channel's
//! [`RecvWaiterList`] while it blocks in a receive, a [`SelectWaiter`] on a channel's
//! [`SelectStack`] while it waits on an arm of a select. Threads are named by `u64` tokens that the
//! runtime hands out; waking one means entering its token in the [`Board`]'s log of unparked
//! threads, which the runtime drains.
//!
//! Every wait has a *selection cell* on the board. A cell starts at [`UNSELECTED`]; whichever event
//! claims it first writes the winning arm's `case_id` into it, and every later claim fails.
use vstd::prelude::*;

use crate::store::Store;

verus! {

/// What a selection cell holds while no arm has won yet.
pub const UNSELECTED: usize = usize::MAX;

// ── The board ────────────────────────────────────────────────────────────────
/// Selection cells, wake-ups and the fairness counter, shared by all channels of a runtime.
pub struct Board {
    cells: Store<usize>,
    unparked: Vec<u64>,
    turn: usize,
}

/// The contents of a [`Board`].
#[verifier::ext_equal]
pub struct BoardView {
    /// The open selection cells and what each holds.
    pub cells: Map<u64, usize>,
    /// The threads unparked so far, in order.
    pub unparked: Seq<u64>,
    /// How many sweeps over select arms have begun, modulo the machine word.
    pub turn: usize,
}

impl BoardView {
    /// The cell is open and nobody has claimed it.
    pub open spec fn unselected(self, cell: u64) -> bool {
        self.cells.contains_key(cell) && self.cells[cell] == UNSELECTED
    }

    /// The board after an attempt to claim `cell` for `case_id`.
    pub open spec fn claim(self, cell: u64, case_id: usize) -> BoardView {
        if self.unselected(cell) {
            BoardView { cells: self.cells.insert(cell, case_id), ..self }
        } else {
            self
        }
    }

    /// The board after `thread` was unparked.
    pub open spec fn unpark(self, thread: u64) -> BoardView {
        BoardView { unparked: self.unparked.push(thread), ..self }
    }

    /// The board with a fresh cell.
    pub open spec fn opened(self, cell: u64) -> BoardView {
        BoardView { cells: self.cells.insert(cell, UNSELECTED), ..self }
    }

    /// The board without the cell.
    pub open spec fn closed(self, cell: u64) -> BoardView {
        BoardView { cells: self.cells.remove(cell), ..self }
    }
}

impl View for Board {
    type V = BoardView;

    closed spec fn view(&self) -> BoardView {
        BoardView { cells: self.cells@, unparked: self.unparked@, turn: self.turn }
    }
}

impl Board {
    pub closed spec fn wf(&self) -> bool {
        self.cells.wf()
    }

    /// A board with no cells and nobody unparked.
    pub fn new() -> (r: Self)
        ensures
            r.wf(),
            r@ == (BoardView { cells: Map::empty(), unparked: Seq::empty(), turn: 0 }),
    {
        Board { cells: Store::new(), unparked: Vec::new(), turn: 0 }
    }

    /// Opens a selection cell that nobody has claimed yet.
    pub fn open_cell(&mut self) -> (cell: u64)
        requires
            old(self).wf(),
        ensures
            final(self).wf(),
            !old(self)@.cells.contains_key(cell),
            final(self)@ == old(self)@.opened(cell),
    {
        self.cells.insert(UNSELECTED)
    }

    /// Closes a selection cell; later claims of it fail.
    pub fn close_cell(&mut self, cell: u64)
        requires
            old(self).wf(),
        ensures
            final(self).wf(),
            final(self)@ == old(self)@.closed(cell),
    {
        let _ = self.cells.take(cell);
    }

    /// What the cell holds; `None` if it is not open.
    pub fn load(&self, cell: u64) -> (held: Option<usize>)
        ensures
            held == (if self@.cells.contains_key(cell) {
                Some(self@.cells[cell])
            } else {
                None
            }),
    {
        match self.cells.get(cell) {
            Some(held) => Some(*held),
            None => None,
        }
    }

    /// Writes `case_id` into the cell if nobody has claimed it yet; whether that happened.
    pub fn claim(&mut self, cell: u64, case_id: usize) -> (won: bool)
        requires
            old(self).wf(),
        ensures
            final(self).wf(),
            won == old(self)@.unselected(cell),
            final(self)@ == old(self)@.claim(cell, case_id),
    {
        let held = self.load(cell);
        if held.is_some() && held.unwrap() == UNSELECTED {
            let _ = self.cells.replace(cell, case_id);
            true
        } else {
            false
        }
    }

    /// Enters `thread` in the log of unparked threads.
    pub fn unpark(&mut self, thread: u64)
        requires
            old(self).wf(),
        ensures
            final(self).wf(),
            final(self)@ == old(self)@.unpark(thread),
    {
        self.unparked.push(thread);
    }

    /// Empties the log of unparked threads and returns what it held.
    pub fn take_unparked(&mut self) -> (threads: Vec<u64>)
        requires
            old(self).wf(),
        ensures
            final(self).wf(),
            threads@ == old(self)@.unparked,
            final(self)@ == (BoardView { unparked: Seq::empty(), ..old(self)@ }),
    {
        let mut threads: Vec<u64> = Vec::new();
        std::mem::swap(&mut threads, &mut self.unparked);
        threads
    }

    /// Begins a sweep over `arms` arms: the arm to look at first.
    ///
    /// The counter advances with every sweep, so that consecutive sweeps begin at consecutive arms.
    pub fn next_start(&mut self, arms: usize) -> (start: usize)
        requires
            old(self).wf(),
            arms > 0,
        ensures
            final(self).wf(),
            start == old(self)@.turn % arms,
            final(self)@ == (BoardView { turn: old(self)@.turn.wrapping_add(1), ..old(self)@ }),
    {
        let start: usize = self.turn % arms;
        self.turn = self.turn.wrapping_add(1);
        start
    }
}

// ── Waking rules ─────────────────────────────────────────────────────────────
/// How many waiters at the front of `ws` have a cell that cannot be claimed any more.
pub open spec fn first_unselected(ws: Seq<RecvWaiter>, b: BoardView) -> nat
    decreases ws.len(),
{
    if ws.len() == 0 || b.unselected(ws[0].selected) {
        0
    } else {
        1 + first_unselected(ws.drop_first(), b)
    }
}

/// The board after the first waiter whose cell can still be claimed was claimed and unparked.
pub open spec fn woken_one(ws: Seq<RecvWaiter>, b: BoardView) -> BoardView {
    let i = first_unselected(ws, b) as int;
    if i < ws.len() {
        b.claim(ws[i].selected, ws[i].case_id).unpark(ws[i].thread)
    } else {
        b
    }
}

/// The board after every waiter in turn tried to claim its cell and was unparked regardless.
pub open spec fn woken_all(ws: Seq<RecvWaiter>, b: BoardView) -> BoardView
    decreases ws.len(),
{
    if ws.len() == 0 {
        b
    } else {
        woken_all(ws.drop_first(), b.claim(ws[0].selected, ws[0].case_id).unpark(ws[0].thread))
    }
}

/// The threads of the waiters whose cell can still be claimed.
pub open spec fn unselected_threads(ws: Seq<RecvWaiter>, b: BoardView) -> Seq<u64>
    decreases ws.len(),
{
    if ws.len() == 0 {
        Seq::empty()
    } else {
        let rest = unselected_threads(ws.drop_last(), b);
        if b.unselected(ws.last().selected) {
            rest.push(ws.last().thread)
        } else {
            rest
        }
    }
}

/// The board after every waiter whose cell can still be claimed was unparked, and no cell claimed.
pub open spec fn nudged(ws: Seq<RecvWaiter>, b: BoardView) -> BoardView {
    BoardView { unparked: b.unparked + unselected_threads(ws, b), ..b }
}

/// The waiters of `ws` that wait on another cell.
pub open spec fn without(ws: Seq<RecvWaiter>, cell: u64) -> Seq<RecvWaiter>
    decreases ws.len(),
{
    if ws.len() == 0 {
        ws
    } else if ws.last().selected == cell {
        without(ws.drop_last(), cell)
    } else {
        without(ws.drop_last(), cell).push(ws.last())
    }
}

proof fn lemma_first_unselected(ws: Seq<RecvWaiter>, b: BoardView, i: int)
    requires
        0 <= i <= ws.len(),
        forall|j: int| 0 <= j < i ==> !b.unselected((#[trigger] ws[j]).selected),
        i < ws.len() ==> b.unselected(ws[i].selected),
    ensures
        first_unselected(ws, b) == i,
    decreases ws.len(),
{
    if i > 0 {
        let rest = ws.drop_first();
        assert forall|j: int| 0 <= j < i - 1 implies !b.unselected(
            (#[trigger] rest[j]).selected,
        ) by {
            assert(rest[j] == ws[j + 1]);
        }
        assert(!b.unselected(ws[0].selected));
        lemma_first_unselected(rest, b, i - 1);
    }
}

// ── Recv waiters ─────────────────────────────────────────────────────────────
/// A thread blocked in a receive.
#[derive(Debug, Clone, Copy, PartialEq, Eq, Structural)]
pub struct RecvWaiter {
    /// The value a waking event writes into the selection cell.
    pub case_id: usize,
    /// The selection cell of this wait; no two waits share one.
    pub selected: u64,
    /// The token of the parked thread.
    pub thread: u64,
}

impl RecvWaiter {
    pub fn new(case_id: usize, selected: u64, thread: u64) -> (r: Self)
        ensures
            r == (RecvWaiter { case_id, selected, thread }),
    {
        RecvWaiter { case_id, selected, thread }
    }
}

/// The waiters of one channel, the longest waiting first.
pub struct RecvWaiterList {
    entries: Vec<RecvWaiter>,
}

impl View for RecvWaiterList {
    type V = Seq<RecvWaiter>;

    closed spec fn view(&self) -> Seq<RecvWaiter> {
        self.entries@
    }
}

impl RecvWaiterList {
    /// Whether nobody waits.
    pub fn is_empty(&self) -> (r: bool)
        ensures
            r == (self@.len() == 0),
    {
        self.entries.len() == 0
    }
}

/// An empty list of waiters.
pub fn new_recv_waiter_list() -> (r: RecvWaiterList)
    ensures
        r@ == Seq::<RecvWaiter>::empty(),
{
    RecvWaiterList { entries: Vec::new() }
}

/// Proof of registration in a [`RecvWaiterList`]; giving it back removes the waiter.
pub struct RecvWaiterGuard {
    selected: u64,
}

impl RecvWaiterGuard {
    /// The selection cell of the registered waiter.
    pub closed spec fn cell(&self) -> u64 {
        self.selected
    }

    /// Enters `waiter` at the end of `list`.
    pub fn register(waiter: RecvWaiter, list: &mut RecvWaiterList) -> (guard: Self)
        ensures
            guard.cell() == waiter.selected,
            final(list)@ == old(list)@.push(waiter),
    {
        list.entries.push(waiter);
        RecvWaiterGuard { selected: waiter.selected }
    }

    /// The selection cell of the registered waiter.
    pub fn marker(&self) -> (cell: u64)
        ensures
            cell == self.cell(),
    {
        self.selected
    }

    /// Removes the registered waiter from `list` and closes its selection cell.
    pub fn release(self, list: &mut RecvWaiterList, board: &mut Board)
        requires
            old(board).wf(),
        ensures
            final(board).wf(),
            final(list)@ == without(old(list)@, self.cell()),
            final(board)@ == old(board)@.closed(self.cell()),
    {
        let ghost before = list.entries@;
        let mut kept: Vec<RecvWaiter> = Vec::new();
        let mut i: usize = 0;
        assert(before.take(0) =~= Seq::<RecvWaiter>::empty());
        while i < list.entries.len()
            invariant
                i <= list.entries.len(),
                list.entries@ == before,
                kept@ == without(before.take(i as int), self.selected),
            decreases list.entries.len() - i,
        {
            let w: RecvWaiter = list.entries[i];
            assert(before.take(i + 1).drop_last() =~= before.take(i as int));
            assert(before.take(i + 1).last() == before[i as int]);
            if w.selected != self.selected {
                kept.push(w);
            }
            i = i + 1;
        }
        assert(before.take(i as int) =~= before);
        list.entries = kept;
        board.close_cell(self.selected);
    }
}

/// Registers `thread` for a plain blocking receive, on a selection cell of its own.
///
/// Such a waiter carries [`UNSELECTED`] as its `case_id`: waking it leaves its cell unclaimed.
pub fn register_plain_recv_waiter(
    list: &mut RecvWaiterList,
    board: &mut Board,
    thread: u64,
) -> (guard: RecvWaiterGuard)
    requires
        old(board).wf(),
    ensures
        final(board).wf(),
        !old(board)@.cells.contains_key(guard.cell()),
        final(board)@ == old(board)@.opened(guard.cell()),
        final(list)@ == old(list)@.push(
            RecvWaiter { case_id: UNSELECTED, selected: guard.cell(), thread },
        ),
{
    let marker = board.open_cell();
    RecvWaiterGuard::register(RecvWaiter::new(UNSELECTED, marker, thread), list)
}

/// Wakes at most one waiter: the first whose selection cell can still be claimed.
///
/// Returns whether there was one.
pub fn wake_one_recv_waiter(list: &RecvWaiterList, board: &mut Board) -> (woken: bool)
    requires
        old(board).wf(),
    ensures
        final(board).wf(),
        woken == (first_unselected(list@, old(board)@) < list@.len()),
        final(board)@ == woken_one(list@, old(board)@),
{
    let ghost b = board@;
    let mut i: usize = 0;
    while i < list.entries.len()
        invariant
            i <= list.entries.len(),
            board.wf(),
            b == old(board)@,
            board@ == b,
            forall|j: int| 0 <= j < i ==> !b.unselected((#[trigger] list.entries@[j]).selected),
        decreases list.entries.len() - i,
    {
        let w: RecvWaiter = list.entries[i];
        if board.claim(w.selected, w.case_id) {
            board.unpark(w.thread);
            proof {
                lemma_first_unselected(list@, b, i as int);
            }
            return true;
        }
        i = i + 1;
    }
    proof {
        lemma_first_unselected(list@, b, i as int);
    }
    false
}

/// Wakes every waiter, whether or not its selection cell can still be claimed.
pub fn wake_all_recv_waiters(list: &RecvWaiterList, board: &mut Board)
    requires
        old(board).wf(),
    ensures
        final(board).wf(),
        final(board)@ == woken_all(list@, old(board)@),
{
    let ghost b = board@;
    let mut i: usize = 0;
    assert(list@.skip(0) =~= list@);
    while i < list.entries.len()
        invariant
            i <= list.entries.len(),
            board.wf(),
            woken_all(list@, b) == woken_all(list@.skip(i as int), board@),
        decreases list.entries.len() - i,
    {
        let w: RecvWaiter = list.entries[i];
        assert(list@.skip(i as int)[0] == w);
        assert(list@.skip(i as int).drop_first() =~= list@.skip(i + 1));
        let _ = board.claim(w.selected, w.case_id);
        board.unpark(w.thread);
        i = i + 1;
    }
    assert(list@.skip(i as int).len() == 0);
}

/// Wakes every waiter whose selection cell can still be claimed, and claims none of the cells.
pub fn wake_all_unselected_recv_waiters(list: &RecvWaiterList, board: &mut Board)
    requires
        old(board).wf(),
    ensures
        final(board).wf(),
        final(board)@ == nudged(list@, old(board)@),
{
    let ghost b = board@;
    let mut i: usize = 0;
    assert(list@.take(0) =~= Seq::<RecvWaiter>::empty());
    assert(b.unparked + unselected_threads(list@.take(0), b) =~= b.unparked);
    while i < list.entries.len()
        invariant
            i <= list.entries.len(),
            board.wf(),
            board@.cells == b.cells,
            board@.turn == b.turn,
            board@.unparked == b.unparked + unselected_threads(list@.take(i as int), b),
        decreases list.entries.len() - i,
    {
        let w: RecvWaiter = list.entries[i];
        assert(list@.take(i + 1).drop_last() =~= list@.take(i as int));
        assert(list@.take(i + 1).last() == w);
        let held = board.load(w.selected);
        if held.is_some() && held.unwrap() == UNSELECTED {
            board.unpark(w.thread);
        }
        assert(board@.unparked =~= b.unparked + unselected_threads(list@.take(i + 1), b));
        i = i + 1;
    }
    assert(list@.take(i as int) =~= list@);
}

// ── Select waiters ───────────────────────────────────────────────────────────
/// A thread waiting on one arm of a select.
#[derive(Debug, Clone, Copy, PartialEq, Eq, Structural)]
pub struct SelectWaiter {
    /// The index of the arm.
    pub case_id: usize,
    /// The selection cell of the select call, shared by all its arms.
    pub selected: u64,
    /// The token of the thread to unpark when this arm is chosen.
    pub thread: u64,
    /// The select call is over; the waiter is skipped and goes away with the next wake-up.
    pub aborted: bool,
}

impl SelectWaiter {
    pub fn new(case_id: usize, selected: u64, thread: u64) -> (r: Self)
        ensures
            r == (SelectWaiter { case_id, selected, thread, aborted: false }),
    {
        SelectWaiter { case_id, selected, thread, aborted: false }
    }

    /// The waiter, regardless of whether it was aborted.
    pub open spec fn arm(self) -> RecvWaiter {
        RecvWaiter { case_id: self.case_id, selected: self.selected, thread: self.thread }
    }
}

/// The select waiters of one side of a channel; the last one registered is on top.
pub struct SelectStack {
    nodes: Vec<SelectWaiter>,
}

impl View for SelectStack {
    type V = Seq<SelectWaiter>;

    /// The waiters on the stack, the topmost last.
    closed spec fn view(&self) -> Seq<SelectWaiter> {
        self.nodes@
    }
}

/// The waiters on a stack that were not aborted, from the top of the stack down.
pub open spec fn pending(stack: Seq<SelectWaiter>) -> Seq<RecvWaiter>
    decreases stack.len(),
{
    if stack.len() == 0 {
        Seq::empty()
    } else if stack.last().aborted {
        pending(stack.drop_last())
    } else {
        seq![stack.last().arm()] + pending(stack.drop_last())
    }
}

/// The stack with every waiter of the given selection cell marked aborted.
pub open spec fn aborted(stack: Seq<SelectWaiter>, cell: u64) -> Seq<SelectWaiter> {
    Seq::new(
        stack.len(),
        |i: int|
            if stack[i].selected == cell {
                SelectWaiter { aborted: true, ..stack[i] }
            } else {
                stack[i]
            },
    )
}

impl SelectStack {
    pub fn new() -> (r: Self)
        ensures
            r@ == Seq::<SelectWaiter>::empty(),
    {
        SelectStack { nodes: Vec::new() }
    }

    /// Whether no waiter, aborted or not, is on the stack.
    pub fn is_empty(&self) -> (r: bool)
        ensures
            r == (self@.len() == 0),
    {
        self.nodes.len() == 0
    }
}

/// Puts `waiter` on top of `stack`.
pub fn push_select_waiter(waiter: SelectWaiter, stack: &mut SelectStack)
    ensures
        final(stack)@ == old(stack)@.push(waiter),
{
    stack.nodes.push(waiter);
}

/// Marks every waiter of the selection cell `selected` as aborted.
pub fn abort_select_waiters(stack: &mut SelectStack, selected: u64)
    ensures
        final(stack)@ == aborted(old(stack)@, selected),
{
    let ghost before = stack.nodes@;
    let mut i: usize = 0;
    while i < stack.nodes.len()
        invariant
            i <= stack.nodes.len(),
            stack.nodes@.len() == before.len(),
            forall|j: int| 0 <= j < i ==> stack.nodes@[j] == aborted(before, selected)[j],
            forall|j: int| i <= j < before.len() ==> stack.nodes@[j] == before[j],
        decreases stack.nodes.len() - i,
    {
        let w: SelectWaiter = stack.nodes[i];
        if w.selected == selected {
            stack.nodes.set(
                i,
                SelectWaiter {
                    case_id: w.case_id,
                    selected: w.selected,
                    thread: w.thread,
                    aborted: true,
                },
            );
        }
        i = i + 1;
    }
    assert(stack.nodes@ =~= aborted(before, selected));
}

/// Empties the stack and wakes at most one arm: the topmost waiter that was not aborted and whose
/// selection cell can still be claimed.
///
/// Returns whether there was one. The other waiters go away unwoken, also those of other select
/// calls whose cell nobody has claimed: such a call is not woken from this stack any more.
pub fn wake_select_one(stack: &mut SelectStack, board: &mut Board) -> (woken: bool)
    requires
        old(board).wf(),
    ensures
        final(board).wf(),
        final(stack)@ == Seq::<SelectWaiter>::empty(),
        woken == (first_unselected(pending(old(stack)@), old(board)@) < pending(
            old(stack)@,
        ).len()),
        final(board)@ == woken_one(pending(old(stack)@), old(board)@),
{
    let ghost b = board@;
    let ghost whole = pending(stack.nodes@);
    let mut winner_found: bool = false;
    while stack.nodes.len() > 0
        invariant
            board.wf(),
            !winner_found ==> board@ == b && woken_one(pending(stack.nodes@), b) == woken_one(
                whole,
                b,
            ) && (first_unselected(pending(stack.nodes@), b) < pending(stack.nodes@).len()) == (
            first_unselected(whole, b) < whole.len()),
            winner_found ==> board@ == woken_one(whole, b) && first_unselected(whole, b)
                < whole.len(),
        decreases stack.nodes.len(),
    {
        let ghost nodes = stack.nodes@;
        let node: SelectWaiter = match stack.nodes.pop() {
            Some(node) => node,
            None => {
                assert(false);
                return winner_found;
            },
        };
        assert(stack.nodes@ =~= nodes.drop_last());
        assert(node == nodes.last());
        if node.aborted {
            continue ;
        }
        assert(pending(nodes).drop_first() =~= pending(stack.nodes@));
        assert(pending(nodes)[0] == node.arm());
        if !winner_found {
            if board.claim(node.selected, node.case_id) {
                board.unpark(node.thread);
                winner_found = true;
            }
        }
    }
    winner_found
}

/// Empties the stack and wakes every waiter on it that was not aborted, from the top down.
pub fn wake_select_all(stack: &mut SelectStack, board: &mut Board)
    requires
        old(board).wf(),
    ensures
        final(board).wf(),
        final(stack)@ == Seq::<SelectWaiter>::empty(),
        final(board)@ == woken_all(pending(old(stack)@), old(board)@),
{
    let ghost b = board@;
    let ghost whole = pending(stack.nodes@);
    while stack.nodes.len() > 0
        invariant
            board.wf(),
            woken_all(pending(stack.nodes@), board@) == woken_all(whole, b),
        decreases stack.nodes.len(),
    {
        let ghost nodes = stack.nodes@;
        let node: SelectWaiter = match stack.nodes.pop() {
            Some(node) => node,
            None => {
                assert(false);
                return ;
            },
        };
        assert(stack.nodes@ =~= nodes.drop_last());
        assert(node == nodes.last());
        if node.aborted {
            continue ;
        }
        assert(pending(nodes).drop_first() =~= pending(stack.nodes@));
        assert(pending(nodes)[0] == node.arm());
        let _ = board.claim(node.selected, node.case_id);
        board.unpark(node.thread);
    }
}

/// Empties the stack without waking anybody.
pub fn drain_select_waiters(stack: &mut SelectStack)
    ensures
        final(stack)@ == Seq::<SelectWaiter>::empty(),
{
    stack.nodes.clear();
}

// ── Laws ─────────────────────────────────────────────────────────────────────
/// The threads of the waiters, in order.
pub open spec fn threads_of(ws: Seq<RecvWaiter>) -> Seq<u64> {
    ws.map_values(|w: RecvWaiter| w.thread)
}

/// Once an arm has won a selection cell, no wake-up of any kind changes what the cell holds.
pub proof fn law_claimed_cell_never_changes(ws: Seq<RecvWaiter>, b: BoardView, cell: u64)
    requires
        b.cells.contains_key(cell),
        b.cells[cell] != UNSELECTED,
    ensures
        forall|case_id: usize| #[trigger] b.claim(cell, case_id) == b,
        woken_one(ws, b).cells.contains_key(cell),
        woken_one(ws, b).cells[cell] == b.cells[cell],
        woken_all(ws, b).cells.contains_key(cell),
        woken_all(ws, b).cells[cell] == b.cells[cell],
        nudged(ws, b).cells == b.cells,
    decreases ws.len(),
{
    if ws.len() > 0 {
        law_claimed_cell_never_changes(
            ws.drop_first(),
            b.claim(ws[0].selected, ws[0].case_id).unpark(ws[0].thread),
            cell,
        );
    }
}

/// Wake-ups open and close no cell, and touch no cell that none of the waiters waits on.
pub proof fn law_wakeups_touch_only_waited_cells(ws: Seq<RecvWaiter>, b: BoardView)
    ensures
        woken_one(ws, b).cells.dom() == b.cells.dom(),
        woken_all(ws, b).cells.dom() == b.cells.dom(),
        forall|cell: u64|
            (forall|i: int| 0 <= i < ws.len() ==> (#[trigger] ws[i]).selected != cell) ==> {
                &&& woken_one(ws, b).cells[cell] == b.cells[cell]
                &&& #[trigger] woken_all(ws, b).cells[cell] == b.cells[cell]
            },
        woken_one(ws, b).turn == b.turn,
        woken_all(ws, b).turn == b.turn,
    decreases ws.len(),
{
    lemma_first_unselected_is_first(ws, b);
    assert(woken_one(ws, b).cells.dom() =~= b.cells.dom());
    if ws.len() > 0 {
        let next = b.claim(ws[0].selected, ws[0].case_id).unpark(ws[0].thread);
        assert(next.cells.dom() =~= b.cells.dom());
        let rest = ws.drop_first();
        law_wakeups_touch_only_waited_cells(rest, next);
        assert forall|cell: u64|
            (forall|i: int| 0 <= i < ws.len() ==> (#[trigger] ws[i]).selected
                != cell) implies #[trigger] woken_all(ws, b).cells[cell] == b.cells[cell] by {
            assert forall|i: int| 0 <= i < rest.len() implies (#[trigger] rest[i]).selected
                != cell by {
                assert(rest[i] == ws[i + 1]);
            }
            assert(ws[0].selected != cell);
        }
    }
}

pub(crate) proof fn lemma_first_unselected_is_first(ws: Seq<RecvWaiter>, b: BoardView)
    ensures
        first_unselected(ws, b) <= ws.len(),
        first_unselected(ws, b) < ws.len() ==> b.unselected(
            ws[first_unselected(ws, b) as int].selected,
        ),
        forall|j: int|
            0 <= j < first_unselected(ws, b) ==> !b.unselected((#[trigger] ws[j]).selected),
    decreases ws.len(),
{
    if ws.len() > 0 && !b.unselected(ws[0].selected) {
        let rest = ws.drop_first();
        lemma_first_unselected_is_first(rest, b);
        assert forall|j: int| 0 <= j < first_unselected(ws, b) implies !b.unselected(
            (#[trigger] ws[j]).selected,
        ) by {
            if j > 0 {
                assert(ws[j] == rest[j - 1]);
            }
        }
    }
}

/// Waking one waiter unparks exactly one thread if some waiter's cell can still be claimed, and
/// otherwise leaves the board as it was. The waiter chosen is the first such one, its cell gets its
/// `case_id`, and no other cell changes.
pub proof fn law_wake_one_wakes_the_first_claimable(ws: Seq<RecvWaiter>, b: BoardView)
    ensures
        (forall|j: int| 0 <= j < ws.len() ==> !b.unselected((#[trigger] ws[j]).selected))
            ==> woken_one(ws, b) == b,
        forall|i: int|
            0 <= i < ws.len() && b.unselected((#[trigger] ws[i]).selected) && (forall|j: int|
                0 <= j < i ==> !b.unselected((#[trigger] ws[j]).selected)) ==> woken_one(ws, b)
                == (BoardView {
                cells: b.cells.insert(ws[i].selected, ws[i].case_id),
                unparked: b.unparked.push(ws[i].thread),
                turn: b.turn,
            }),
{
    if forall|j: int| 0 <= j < ws.len() ==> !b.unselected((#[trigger] ws[j]).selected) {
        lemma_first_unselected(ws, b, ws.len() as int);
    }
    assert forall|i: int|
        0 <= i < ws.len() && b.unselected((#[trigger] ws[i]).selected) && (forall|j: int|
            0 <= j < i ==> !b.unselected((#[trigger] ws[j]).selected)) implies woken_one(ws, b) == (
    BoardView {
        cells: b.cells.insert(ws[i].selected, ws[i].case_id),
        unparked: b.unparked.push(ws[i].thread),
        turn: b.turn,
    }) by {
        lemma_first_unselected(ws, b, i);
    }
}

/// Waking everybody unparks every waiter's thread, in order, and nobody else.
pub proof fn law_wake_all_unparks_everyone(ws: Seq<RecvWaiter>, b: BoardView)
    ensures
        woken_all(ws, b).unparked == b.unparked + threads_of(ws),
    decreases ws.len(),
{
    if ws.len() == 0 {
        assert(b.unparked + threads_of(ws) =~= b.unparked);
    } else {
        let next = b.claim(ws[0].selected, ws[0].case_id).unpark(ws[0].thread);
        law_wake_all_unparks_everyone(ws.drop_first(), next);
        assert(next.unparked + threads_of(ws.drop_first()) =~= b.unparked + threads_of(ws));
    }
}

/// After everybody was woken, no cell that a select arm waits on can be claimed any more.
pub proof fn law_wake_all_settles_every_arm(ws: Seq<RecvWaiter>, b: BoardView, i: int)
    requires
        0 <= i < ws.len(),
        ws[i].case_id != UNSELECTED,
    ensures
        !woken_all(ws, b).unselected(ws[i].selected),
    decreases ws.len(),
{
    let next = b.claim(ws[0].selected, ws[0].case_id).unpark(ws[0].thread);
    let rest = ws.drop_first();
    if i > 0 {
        assert(rest[i - 1] == ws[i]);
        law_wake_all_settles_every_arm(rest, next, i - 1);
    } else if next.cells.contains_key(ws[0].selected) {
        law_claimed_cell_never_changes(rest, next, ws[0].selected);
    } else {
        law_wakeups_touch_only_waited_cells(rest, next);
    }
}

/// Some waiter of this thread has a cell that can still be claimed.
pub open spec fn waits_unselected(ws: Seq<RecvWaiter>, b: BoardView, thread: u64) -> bool {
    exists|i: int|
        0 <= i < ws.len() && b.unselected((#[trigger] ws[i]).selected) && ws[i].thread == thread
}

/// Nudging unparks the thread of every waiter whose cell can still be claimed, and unparks nobody
/// else.
pub proof fn law_nudge_unparks_the_unselected(ws: Seq<RecvWaiter>, b: BoardView)
    ensures
        forall|thread: u64| #[trigger]
            unselected_threads(ws, b).contains(thread) <==> waits_unselected(ws, b, thread),
    decreases ws.len(),
{
    if ws.len() > 0 {
        let init = ws.drop_last();
        let all = unselected_threads(ws, b);
        let some = unselected_threads(init, b);
        law_nudge_unparks_the_unselected(init, b);
        assert forall|thread: u64| #[trigger] all.contains(thread) <==> waits_unselected(
            ws,
            b,
            thread,
        ) by {
            if all.contains(thread) {
                let k = choose|k: int| 0 <= k < all.len() && all[k] == thread;
                if k == some.len() {
                    assert(ws[ws.len() - 1].thread == thread);
                } else {
                    assert(some[k] == thread);
                    assert(some.contains(thread));
                    let i = choose|i: int|
                        0 <= i < init.len() && b.unselected((#[trigger] init[i]).selected)
                            && init[i].thread == thread;
                    assert(ws[i] == init[i]);
                }
            }
            if waits_unselected(ws, b, thread) {
                let i = choose|i: int|
                    0 <= i < ws.len() && b.unselected((#[trigger] ws[i]).selected) && ws[i].thread
                        == thread;
                if i == ws.len() - 1 {
                    assert(all[all.len() - 1] == thread);
                } else {
                    assert(init[i] == ws[i]);
                    assert(some.contains(thread));
                    let k = choose|k: int| 0 <= k < some.len() && some[k] == thread;
                    assert(all[k] == thread);
                }
            }
        }
    }
}

/// Some waiter on this cell carries this `case_id`.
pub open spec fn names(ws: Seq<RecvWaiter>, cell: u64, case_id: usize) -> bool {
    exists|i: int|
        0 <= i < ws.len() && (#[trigger] ws[i]).selected == cell && ws[i].case_id == case_id
}

/// A wake-up writes into a cell only what a waiter on that cell carries: afterwards the cell holds
/// what it held, or the `case_id` of one of the waiters on it.
pub proof fn law_wakeups_name_a_waiter(ws: Seq<RecvWaiter>, b: BoardView, cell: u64)
    requires
        b.cells.contains_key(cell),
    ensures
        woken_one(ws, b).cells[cell] == b.cells[cell] || names(
            ws,
            cell,
            woken_one(ws, b).cells[cell],
        ),
        woken_all(ws, b).cells[cell] == b.cells[cell] || names(
            ws,
            cell,
            woken_all(ws, b).cells[cell],
        ),
    decreases ws.len(),
{
    let first = first_unselected(ws, b) as int;
    if first < ws.len() && ws[first].selected == cell {
        assert(names(ws, cell, ws[first].case_id));
    }
    if ws.len() > 0 {
        let rest = ws.drop_first();
        let next = b.claim(ws[0].selected, ws[0].case_id).unpark(ws[0].thread);
        law_wakeups_name_a_waiter(rest, next, cell);
        let last = woken_all(rest, next).cells[cell];
        if last == next.cells[cell] {
            if last != b.cells[cell] {
                assert(ws[0].selected == cell && ws[0].case_id == last);
            }
        } else {
            let i = choose|i: int|
                0 <= i < rest.len() && (#[trigger] rest[i]).selected == cell && rest[i].case_id
                    == last;
            assert(ws[i + 1] == rest[i]);
        }
    }
}

/// Once a select call has aborted its waiters on a stack, nothing on that stack wakes it: none of
/// its waiters is pending any more, while the others stay as they were.
pub proof fn law_aborted_waiters_are_never_pending(stack: Seq<SelectWaiter>, cell: u64)
    ensures
        forall|i: int|
            0 <= i < pending(aborted(stack, cell)).len() ==> (#[trigger] pending(
                aborted(stack, cell),
            )[i]).selected != cell,
        pending(aborted(stack, cell)) == pending(stack).filter(|w: RecvWaiter| w.selected != cell),
    decreases stack.len(),
{
    reveal(Seq::filter);
    let other = |w: RecvWaiter| w.selected != cell;
    if stack.len() > 0 {
        let rest = stack.drop_last();
        law_aborted_waiters_are_never_pending(rest, cell);
        assert(aborted(stack, cell).drop_last() =~= aborted(rest, cell));
        if !stack.last().aborted {
            let top = seq![stack.last().arm()];
            Seq::<RecvWaiter>::filter_distributes_over_add(top, pending(rest), other);
            assert(top.drop_last() =~= Seq::<RecvWaiter>::empty());
            assert(top.drop_last().filter(other) =~= Seq::<RecvWaiter>::empty());
            if stack.last().selected == cell {
                assert(top.filter(other) + pending(rest).filter(other) =~= pending(rest).filter(
                    other,
                ));
            } else {
                assert(top.filter(other) =~= top);
            }
        }
    }
    let now = pending(aborted(stack, cell));
    assert forall|i: int| 0 <= i < now.len() implies (#[trigger] now[i]).selected != cell by {
        pending(stack).lemma_filter_pred(other, i);
    }
}

/// Giving a guard back undoes the registration, whoever else has registered since: the others stay
/// in the list in their order, and a board with a fresh cell is as before.
pub proof fn law_release_undoes_register(
    earlier: Seq<RecvWaiter>,
    waiter: RecvWaiter,
    later: Seq<RecvWaiter>,
    b: BoardView,
)
    requires
        forall|i: int|
            0 <= i < earlier.len() ==> (#[trigger] earlier[i]).selected != waiter.selected,
        forall|i: int| 0 <= i < later.len() ==> (#[trigger] later[i]).selected != waiter.selected,
    ensures
        without(earlier.push(waiter) + later, waiter.selected) == earlier + later,
        !b.cells.contains_key(waiter.selected) ==> b.opened(waiter.selected).closed(
            waiter.selected,
        ) == b,
    decreases later.len(),
{
    let all = earlier.push(waiter) + later;
    if later.len() == 0 {
        assert(all.drop_last() =~= earlier);
        lemma_without_absent(earlier, waiter.selected);
        assert(earlier + later =~= earlier);
    } else {
        let rest = later.drop_last();
        assert forall|i: int| 0 <= i < rest.len() implies (#[trigger] rest[i]).selected
            != waiter.selected by {
            assert(rest[i] == later[i]);
        }
        law_release_undoes_register(earlier, waiter, rest, b);
        assert(all.drop_last() =~= earlier.push(waiter) + rest);
        assert(all.last() == later[later.len() - 1]);
        assert((earlier + rest).push(later.last()) =~= earlier + later);
    }
    if !b.cells.contains_key(waiter.selected) {
        assert(b.opened(waiter.selected).closed(waiter.selected) =~= b);
    }
}

proof fn lemma_without_absent(ws: Seq<RecvWaiter>, cell: u64)
    requires
        forall|i: int| 0 <= i < ws.len() ==> (#[trigger] ws[i]).selected != cell,
    ensures
        without(ws, cell) == ws,
    decreases ws.len(),
{
    if ws.len() > 0 {
        assert(ws.last().selected != cell);
        assert forall|i: int| 0 <= i < ws.drop_last().len() implies (
        #[trigger] ws.drop_last()[i]).selected != cell by {
            assert(ws.drop_last()[i] == ws[i]);
        }
        lemma_without_absent(ws.drop_last(), cell);
        assert(ws.drop_last().push(ws.last()) =~= ws);
    }
}

/// A plain blocked receive stays wakeable: waking it leaves its cell unclaimed, so that it can be
/// woken again until it gives its registration up.
pub proof fn law_plain_waiter_stays_wakeable(ws: Seq<RecvWaiter>, b: BoardView, cell: u64)
    requires
        b.unselected(cell),
        forall|i: int|
            0 <= i < ws.len() && (#[trigger] ws[i]).selected == cell ==> ws[i].case_id
                == UNSELECTED,
    ensures
        woken_one(ws, b).unselected(cell),
        woken_all(ws, b).unselected(cell),
        nudged(ws, b).unselected(cell),
    decreases ws.len(),
{
    if ws.len() > 0 {
        let rest = ws.drop_first();
        assert forall|i: int|
            0 <= i < rest.len() && (#[trigger] rest[i]).selected == cell implies rest[i].case_id
            == UNSELECTED by {
            assert(rest[i] == ws[i + 1]);
        }
        law_plain_waiter_stays_wakeable(
            rest,
            b.claim(ws[0].selected, ws[0].case_id).unpark(ws[0].thread),
            cell,
        );
    }
}

/// What the operations of the board do to its contents: a cell opens unclaimed, which is what
/// `usize::MAX` in it means; a claim writes into an unclaimed cell and nowhere else, and changes
/// nothing in any other case; closing removes the cell; unparking adds to the log. Nothing else
/// changes.
pub proof fn law_board_operations(b: BoardView, cell: u64, case_id: usize, thread: u64)
    ensures
        b.unselected(cell) <==> b.cells.contains_key(cell) && b.cells[cell] == usize::MAX,
        b.opened(cell).cells == b.cells.insert(cell, usize::MAX),
        b.opened(cell).unparked == b.unparked,
        b.opened(cell).turn == b.turn,
        b.closed(cell).cells == b.cells.remove(cell),
        b.closed(cell).unparked == b.unparked,
        b.closed(cell).turn == b.turn,
        b.cells.contains_key(cell) && b.cells[cell] == usize::MAX ==> b.claim(cell, case_id).cells
            == b.cells.insert(cell, case_id),
        !b.cells.contains_key(cell) || b.cells[cell] != usize::MAX ==> b.claim(cell, case_id).cells
            == b.cells,
        b.claim(cell, case_id).unparked == b.unparked,
        b.claim(cell, case_id).turn == b.turn,
        b.unpark(thread).cells == b.cells,
        b.unpark(thread).unparked == b.unparked.push(thread),
        b.unpark(thread).turn == b.turn,
{
}

/// Waking one more waiter after all others is a claim of its cell and the unparking of its thread;
/// so among the waiters on one cell, the first wins.
pub proof fn law_wake_all_goes_in_order(ws: Seq<RecvWaiter>, waiter: RecvWaiter, b: BoardView)
    ensures
        woken_all(Seq::empty(), b) == b,
        ({
            let before = woken_all(ws, b);
            let after = woken_all(ws.push(waiter), b);
            &&& before.cells.contains_key(waiter.selected) && before.cells[waiter.selected]
                == usize::MAX ==> after.cells == before.cells.insert(
                waiter.selected,
                waiter.case_id,
            )
            &&& !before.cells.contains_key(waiter.selected) || before.cells[waiter.selected]
                != usize::MAX ==> after.cells == before.cells
            &&& after.unparked == before.unparked.push(waiter.thread)
            &&& after.turn == before.turn
        }),
    decreases ws.len(),
{
    let more = ws.push(waiter);
    if ws.len() == 0 {
        reveal_with_fuel(woken_all, 2);
        assert(more.drop_first() =~= Seq::<RecvWaiter>::empty());
    } else {
        assert(more.drop_first() =~= ws.drop_first().push(waiter));
        assert(more[0] == ws[0]);
        law_wake_all_goes_in_order(
            ws.drop_first(),
            waiter,
            b.claim(ws[0].selected, ws[0].case_id).unpark(ws[0].thread),
        );
    }
}

/// Nudging unparks the threads of the waiters on open cells that hold `usize::MAX`, in order and
/// nobody else, and touches no cell.
pub proof fn law_nudge_is_a_filter(ws: Seq<RecvWaiter>, b: BoardView)
    ensures
        nudged(ws, b).cells == b.cells,
        nudged(ws, b).turn == b.turn,
        nudged(ws, b).unparked == b.unparked + ws.filter(
            |w: RecvWaiter| b.cells.contains_key(w.selected) && b.cells[w.selected] == usize::MAX,
        ).map_values(|w: RecvWaiter| w.thread),
{
    lemma_unselected_threads_filter(ws, b);
}

proof fn lemma_unselected_threads_filter(ws: Seq<RecvWaiter>, b: BoardView)
    ensures
        unselected_threads(ws, b) == ws.filter(
            |w: RecvWaiter| b.cells.contains_key(w.selected) && b.cells[w.selected] == usize::MAX,
        ).map_values(|w: RecvWaiter| w.thread),
    decreases ws.len(),
{
    reveal(Seq::filter);
    let open = |w: RecvWaiter|
        b.cells.contains_key(w.selected) && b.cells[w.selected] == usize::MAX;
    if ws.len() > 0 {
        lemma_unselected_threads_filter(ws.drop_last(), b);
    }
    assert(unselected_threads(ws, b) =~= ws.filter(open).map_values(|w: RecvWaiter| w.thread));
}

/// Leaving the waiters of a cell out keeps exactly the others, in their order.
pub proof fn law_without_is_a_filter(ws: Seq<RecvWaiter>, cell: u64)
    ensures
        without(ws, cell) == ws.filter(|w: RecvWaiter| w.selected != cell),
    decreases ws.len(),
{
    reveal(Seq::filter);
    if ws.len() > 0 {
        law_without_is_a_filter(ws.drop_last(), cell);
    }
}

/// The pending waiters are those on the stack that were not aborted, from the top down, each with
/// its own index, cell and thread.
pub proof fn law_pending_is_a_filter(stack: Seq<SelectWaiter>)
    ensures
        pending(stack) == stack.filter(|w: SelectWaiter| !w.aborted).reverse().map_values(
            |w: SelectWaiter|
                RecvWaiter { case_id: w.case_id, selected: w.selected, thread: w.thread },
        ),
    decreases stack.len(),
{
    reveal(Seq::filter);
    let kept = |w: SelectWaiter| !w.aborted;
    let arm = |w: SelectWaiter|
        RecvWaiter { case_id: w.case_id, selected: w.selected, thread: w.thread };
    if stack.len() > 0 {
        law_pending_is_a_filter(stack.drop_last());
    }
    assert(pending(stack) =~= stack.filter(kept).reverse().map_values(arm));
}

/// Aborting marks the waiters of the cell and changes nothing else.
pub proof fn law_abort_marks_the_call(stack: Seq<SelectWaiter>, cell: u64, i: int)
    requires
        0 <= i < stack.len(),
    ensures
        aborted(stack, cell).len() == stack.len(),
        aborted(stack, cell)[i].aborted == (stack[i].aborted || stack[i].selected == cell),
        aborted(stack, cell)[i].case_id == stack[i].case_id,
        aborted(stack, cell)[i].selected == stack[i].selected,
        aborted(stack, cell)[i].thread == stack[i].thread,
{
}

/// Consecutive sweeps begin at consecutive arms: over as many sweeps as there are arms, each arm is
/// looked at first exactly once, as long as the counter does not wrap in between.
pub proof fn law_sweeps_are_fair(turn: usize, arms: usize, arm: usize)
    requires
        arms > 0,
        arm < arms,
        turn + arms <= usize::MAX,
    ensures
        exists|k: int| 0 <= k < arms && #[trigger] ((turn + k) % arms as int) == arm,
        forall|j: int, k: int|
            0 <= j < arms && 0 <= k < arms && #[trigger] ((turn + j) % arms as int)
                == #[trigger] ((turn + k) % arms as int) ==> j == k,
{
    let n = arms as int;
    let r = turn as int % n;
    vstd::arithmetic::div_mod::lemma_fundamental_div_mod(turn as int, n);
    let k = if arm >= r {
        arm - r
    } else {
        arm - r + n
    };
    let q = turn as int / n;
    assert(n * q == q * n) by (nonlinear_arith);
    assert forall|j: int| 0 <= j < n implies #[trigger] ((turn + j) % n) == (if r + j < n {
        r + j
    } else {
        r + j - n
    }) by {
        if r + j < n {
            vstd::arithmetic::div_mod::lemma_fundamental_div_mod_converse(turn + j, n, q, r + j);
        } else {
            assert((q + 1) * n == q * n + n) by (nonlinear_arith);
            vstd::arithmetic::div_mod::lemma_fundamental_div_mod_converse(
                turn + j,
                n,
                q + 1,
                r + j - n,
            );
        }
    }
    assert((turn + k) % n == arm);
}

} // verus!
