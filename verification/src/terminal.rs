use vstd::prelude::*;

verus! {

/// A mode that the display puts the terminal in.
#[derive(Clone, Copy, Debug, PartialEq, Eq, Hash, Structural)]
pub enum TerminalMode {
    /// Input arrives unbuffered and unechoed.
    RawMode,
    /// The display draws on the alternate screen buffer.
    AlternateScreen,
    /// The terminal reports mouse events.
    MouseCapture,
    /// The terminal reports key releases and repeats.
    KeyboardEnhancement,
}

/// One step of setting the terminal up or restoring it.
#[derive(Clone, Copy, Debug, PartialEq, Eq, Hash, Structural)]
pub enum TerminalAction {
    /// Put the terminal in the mode.
    Enter(TerminalMode),
    /// Take the terminal out of the mode.
    Leave(TerminalMode),
    /// Flush what was written to the terminal.
    Flush,
}

/// Which modes a terminal is in.
#[derive(Clone, Copy, Debug, PartialEq, Eq, Structural)]
pub struct TerminalModes {
    /// Whether raw mode is on.
    pub raw_mode: bool,
    /// Whether the alternate screen is shown.
    pub alternate_screen: bool,
    /// Whether mouse events are reported.
    pub mouse_capture: bool,
    /// Whether the keyboard enhancement flags are pushed.
    pub keyboard_enhancement: bool,
}

impl TerminalModes {
    /// The terminal as the display found it: in none of the modes.
    pub open spec fn pristine() -> TerminalModes {
        TerminalModes {
            raw_mode: false,
            alternate_screen: false,
            mouse_capture: false,
            keyboard_enhancement: false,
        }
    }

    /// Whether the terminal is in `mode`.
    pub open spec fn is_on(self, mode: TerminalMode) -> bool {
        match mode {
            TerminalMode::RawMode => self.raw_mode,
            TerminalMode::AlternateScreen => self.alternate_screen,
            TerminalMode::MouseCapture => self.mouse_capture,
            TerminalMode::KeyboardEnhancement => self.keyboard_enhancement,
        }
    }

    /// The terminal with `mode` switched on or off.
    pub open spec fn with(self, mode: TerminalMode, on: bool) -> TerminalModes {
        match mode {
            TerminalMode::RawMode => TerminalModes { raw_mode: on, ..self },
            TerminalMode::AlternateScreen => TerminalModes { alternate_screen: on, ..self },
            TerminalMode::MouseCapture => TerminalModes { mouse_capture: on, ..self },
            TerminalMode::KeyboardEnhancement => TerminalModes {
                keyboard_enhancement: on,
                ..self
            },
        }
    }

    /// The terminal after one action.
    pub open spec fn after(self, action: TerminalAction) -> TerminalModes {
        match action {
            TerminalAction::Enter(mode) => self.with(mode, true),
            TerminalAction::Leave(mode) => self.with(mode, false),
            TerminalAction::Flush => self,
        }
    }

    /// The terminal after the actions of `actions`, first to last.
    pub open spec fn after_all(self, actions: Seq<TerminalAction>) -> TerminalModes
        decreases actions.len(),
    {
        if actions.len() == 0 {
            self
        } else {
            self.after(actions.first()).after_all(actions.drop_first())
        }
    }

    /// The terminal after the actions of `actions` were attempted, first to
    /// last. The attempt numbered `i` has its effect where `done[i]` says so;
    /// an attempt that fails changes nothing and does not keep those behind
    /// it from being made.
    pub open spec fn after_attempts(self, actions: Seq<TerminalAction>, done: Seq<bool>)
        -> TerminalModes
        decreases actions.len(),
    {
        if actions.len() == 0 {
            self
        } else {
            let earlier = self.after_attempts(actions.drop_last(), done);
            if actions.len() - 1 < done.len() && done[actions.len() - 1] {
                earlier.after(actions.last())
            } else {
                earlier
            }
        }
    }

    /// A terminal in none of the modes.
    pub fn new() -> (modes: TerminalModes)
        ensures
            modes == TerminalModes::pristine(),
    {
        TerminalModes {
            raw_mode: false,
            alternate_screen: false,
            mouse_capture: false,
            keyboard_enhancement: false,
        }
    }

    /// Whether the terminal is in none of the modes.
    pub fn is_pristine(&self) -> (pristine: bool)
        ensures
            pristine == (*self == TerminalModes::pristine()),
    {
        !self.raw_mode && !self.alternate_screen && !self.mouse_capture
            && !self.keyboard_enhancement
    }

    /// Carries out one action on the terminal.
    pub fn apply(&mut self, action: TerminalAction)
        ensures
            *final(self) == old(self).after(action),
    {
        match action {
            TerminalAction::Enter(mode) => self.switch(mode, true),
            TerminalAction::Leave(mode) => self.switch(mode, false),
            TerminalAction::Flush => {},
        }
    }

    /// Carries out the actions of `actions`, first to last.
    pub fn apply_all(&mut self, actions: &Vec<TerminalAction>)
        ensures
            *final(self) == old(self).after_all(actions@),
    {
        let mut done: usize = 0;
        assert(actions@.skip(0) == actions@);
        while done < actions.len()
            invariant
                done <= actions.len(),
                self.after_all(actions@.skip(done as int)) == old(self).after_all(actions@),
            decreases actions.len() - done,
        {
            assert(actions@.skip(done as int).drop_first() == actions@.skip(done + 1));
            assert(actions@.skip(done as int).first() == actions@[done as int]);
            self.apply(actions[done]);
            done = done + 1;
        }
        assert(actions@.skip(done as int).len() == 0);
    }

    /// Attempts the actions of `actions`, first to last: the attempt numbered
    /// `i` is carried out where `done` has `true` at `i`, and fails without
    /// effect otherwise. Every attempt is made, whatever became of those
    /// before it.
    pub fn apply_attempts(&mut self, actions: &Vec<TerminalAction>, done: &Vec<bool>)
        ensures
            *final(self) == old(self).after_attempts(actions@, done@),
    {
        let mut i: usize = 0;
        while i < actions.len()
            invariant
                i <= actions.len(),
                *self == old(self).after_attempts(actions@.take(i as int), done@),
            decreases actions.len() - i,
        {
            assert(actions@.take(i + 1).drop_last() == actions@.take(i as int));
            if i < done.len() && done[i] {
                self.apply(actions[i]);
            }
            i = i + 1;
        }
        assert(actions@.take(actions.len() as int) == actions@);
    }

    fn switch(&mut self, mode: TerminalMode, on: bool)
        ensures
            *final(self) == old(self).with(mode, on),
    {
        match mode {
            TerminalMode::RawMode => {
                self.raw_mode = on;
            },
            TerminalMode::AlternateScreen => {
                self.alternate_screen = on;
            },
            TerminalMode::MouseCapture => {
                self.mouse_capture = on;
            },
            TerminalMode::KeyboardEnhancement => {
                self.keyboard_enhancement = on;
            },
        }
    }
}

/// The modes the display needs, in the order in which they are entered.
pub open spec fn setup_order() -> Seq<TerminalMode> {
    seq![
        TerminalMode::RawMode,
        TerminalMode::AlternateScreen,
        TerminalMode::MouseCapture,
        TerminalMode::KeyboardEnhancement,
    ]
}

/// The actions that leave the modes of `entered`, the one entered last
/// first.
pub open spec fn leaves(entered: Seq<TerminalMode>) -> Seq<TerminalAction>
    decreases entered.len(),
{
    if entered.len() == 0 {
        Seq::empty()
    } else {
        seq![TerminalAction::Leave(entered.last())] + leaves(entered.drop_last())
    }
}

/// The actions that restore a terminal on which the modes of `entered` were
/// entered in that order: each mode is left, in reverse order, and the output
/// is flushed. A terminal that was never touched needs no action.
pub open spec fn teardown_plan(entered: Seq<TerminalMode>) -> Seq<TerminalAction> {
    if entered.len() == 0 {
        Seq::empty()
    } else {
        leaves(entered).push(TerminalAction::Flush)
    }
}

/// Every mode that is on was recorded as entered.
pub open spec fn accounted_for(modes: TerminalModes, entered: Seq<TerminalMode>) -> bool {
    forall|mode: TerminalMode| modes.is_on(mode) ==> entered.contains(mode)
}

/// The modes are left in the reverse of the order in which they were
/// entered, one action for each.
pub proof fn lemma_leaves_reverse(entered: Seq<TerminalMode>, i: int)
    requires
        0 <= i < entered.len(),
    ensures
        leaves(entered).len() == entered.len(),
        leaves(entered)[i] == TerminalAction::Leave(entered[entered.len() - 1 - i]),
    decreases entered.len(),
{
    lemma_leaves_len(entered);
    if i > 0 {
        lemma_leaves_reverse(entered.drop_last(), i - 1);
    }
}

proof fn lemma_leaves_len(entered: Seq<TerminalMode>)
    ensures
        leaves(entered).len() == entered.len(),
    decreases entered.len(),
{
    if entered.len() > 0 {
        lemma_leaves_len(entered.drop_last());
    }
}

proof fn lemma_after_all_push(
    modes: TerminalModes,
    actions: Seq<TerminalAction>,
    action: TerminalAction,
)
    ensures
        modes.after_all(actions.push(action)) == modes.after_all(actions).after(action),
    decreases actions.len(),
{
    let longer = actions.push(action);
    if actions.len() == 0 {
        assert(longer.first() == action);
        assert(longer.drop_first().len() == 0);
        assert(modes.after(action).after_all(longer.drop_first()) == modes.after(action));
    } else {
        assert(longer.first() == actions.first());
        assert(longer.drop_first() == actions.drop_first().push(action));
        lemma_after_all_push(modes.after(actions.first()), actions.drop_first(), action);
    }
}

proof fn lemma_leaves_restore(modes: TerminalModes, entered: Seq<TerminalMode>)
    requires
        accounted_for(modes, entered),
    ensures
        modes.after_all(leaves(entered)) == TerminalModes::pristine(),
    decreases entered.len(),
{
    if entered.len() == 0 {
        assert(!modes.is_on(TerminalMode::RawMode));
        assert(!modes.is_on(TerminalMode::AlternateScreen));
        assert(!modes.is_on(TerminalMode::MouseCapture));
        assert(!modes.is_on(TerminalMode::KeyboardEnhancement));
    } else {
        let last = entered.last();
        let rest = entered.drop_last();
        let next = modes.after(TerminalAction::Leave(last));
        assert(leaves(entered).drop_first() == leaves(rest));
        assert forall|mode: TerminalMode| next.is_on(mode) implies rest.contains(mode) by {
            assert(modes.is_on(mode));
            let i = choose|i: int| 0 <= i < entered.len() && entered[i] == mode;
            assert(rest[i] == mode);
        }
        lemma_leaves_restore(next, rest);
    }
}

/// Teardown restores the terminal wherever it is run: on a terminal whose
/// active modes were all recorded as entered, the plan leaves no mode on.
pub proof fn lemma_teardown_restores(modes: TerminalModes, entered: Seq<TerminalMode>)
    requires
        accounted_for(modes, entered),
    ensures
        modes.after_all(teardown_plan(entered)) == TerminalModes::pristine(),
{
    lemma_leaves_restore(modes, entered);
    if entered.len() > 0 {
        lemma_after_all_push(modes, leaves(entered), TerminalAction::Flush);
    }
}

/// Attempts that enter nothing switch no mode on, and a mode that is still
/// on after them was on before and was not left by an attempt that
/// succeeded.
proof fn lemma_attempts_only_leave(
    modes: TerminalModes,
    actions: Seq<TerminalAction>,
    done: Seq<bool>,
    mode: TerminalMode,
)
    requires
        forall|i: int| 0 <= i < actions.len() ==> !(#[trigger] actions[i] is Enter),
        modes.after_attempts(actions, done).is_on(mode),
    ensures
        modes.is_on(mode),
        forall|i: int|
            0 <= i < actions.len() && #[trigger] actions[i] == TerminalAction::Leave(mode) ==> !(i
                < done.len() && done[i]),
    decreases actions.len(),
{
    if actions.len() > 0 {
        let front = actions.drop_last();
        let earlier = modes.after_attempts(front, done);
        assert(!(actions[actions.len() - 1] is Enter));
        assert forall|i: int| 0 <= i < front.len() implies !(#[trigger] front[i] is Enter) by {
            assert(front[i] == actions[i]);
        }
        assert(earlier.is_on(mode));
        lemma_attempts_only_leave(modes, front, done, mode);
        assert forall|i: int|
            0 <= i < actions.len() && #[trigger] actions[i] == TerminalAction::Leave(
                mode,
            ) implies !(i < done.len() && done[i]) by {
            if i < front.len() {
                assert(front[i] == actions[i]);
            }
        }
    }
}

/// Teardown restores what it can when steps fail. Every step of the plan is
/// attempted, and a mode whose own step succeeds is off afterwards, whatever
/// became of the other steps: a terminal that cannot pop the keyboard flags
/// still leaves the alternate screen and raw mode.
pub proof fn lemma_teardown_restores_where_steps_succeed(
    modes: TerminalModes,
    entered: Seq<TerminalMode>,
    done: Seq<bool>,
    mode: TerminalMode,
)
    requires
        accounted_for(modes, entered),
        forall|i: int|
            0 <= i < teardown_plan(entered).len() && #[trigger] teardown_plan(entered)[i]
                == TerminalAction::Leave(mode) ==> i < done.len() && done[i],
    ensures
        !modes.after_attempts(teardown_plan(entered), done).is_on(mode),
{
    let plan = teardown_plan(entered);
    if modes.after_attempts(plan, done).is_on(mode) {
        lemma_leaves_len(entered);
        assert forall|i: int| 0 <= i < plan.len() implies !(#[trigger] plan[i] is Enter) by {
            if i < entered.len() {
                lemma_leaves_reverse(entered, i);
            }
        }
        lemma_attempts_only_leave(modes, plan, done, mode);
        let at = choose|at: int| 0 <= at < entered.len() && entered[at] == mode;
        let step = entered.len() - 1 - at;
        lemma_leaves_reverse(entered, step);
        assert(plan[step] == TerminalAction::Leave(mode));
    }
}

/// Entering a mode and recording it keeps every active mode accounted for.
pub proof fn lemma_entering_stays_accounted(
    modes: TerminalModes,
    entered: Seq<TerminalMode>,
    mode: TerminalMode,
)
    requires
        accounted_for(modes, entered),
    ensures
        accounted_for(modes.after(TerminalAction::Enter(mode)), entered.push(mode)),
        accounted_for(modes.after(TerminalAction::Enter(mode)), entered) || !entered.contains(mode),
{
    let next = modes.after(TerminalAction::Enter(mode));
    let longer = entered.push(mode);
    assert(longer[entered.len() as int] == mode);
    assert forall|other: TerminalMode| next.is_on(other) implies longer.contains(other) by {
        if other != mode {
            assert(modes.is_on(other));
            let i = choose|i: int| 0 <= i < entered.len() && entered[i] == other;
            assert(longer[i] == other);
        }
    }
    if entered.contains(mode) {
        assert forall|other: TerminalMode| next.is_on(other) implies entered.contains(other) by {
            if other != mode {
                assert(modes.is_on(other));
            }
        }
    }
}

/// The record of the modes that were entered on the terminal, and the
/// source of the one teardown that undoes them.
#[derive(Debug)]
pub struct TerminalSession {
    entered: Vec<TerminalMode>,
}

impl View for TerminalSession {
    type V = Seq<TerminalMode>;

    closed spec fn view(&self) -> Seq<TerminalMode> {
        self.entered@
    }
}

impl TerminalSession {
    /// Session on a terminal that was not touched yet.
    pub fn new() -> (session: TerminalSession)
        ensures
            session@ == Seq::<TerminalMode>::empty(),
    {
        TerminalSession { entered: Vec::new() }
    }

    /// The actions that set the terminal up, in order: raw mode, alternate
    /// screen, mouse capture, keyboard enhancement.
    pub fn setup_plan() -> (plan: Vec<TerminalAction>)
        ensures
            plan@.len() == setup_order().len(),
            forall|i: int|
                0 <= i < plan@.len() ==> #[trigger] plan@[i] == TerminalAction::Enter(
                    setup_order()[i],
                ),
    {
        let mut plan: Vec<TerminalAction> = Vec::new();
        plan.push(TerminalAction::Enter(TerminalMode::RawMode));
        plan.push(TerminalAction::Enter(TerminalMode::AlternateScreen));
        plan.push(TerminalAction::Enter(TerminalMode::MouseCapture));
        plan.push(TerminalAction::Enter(TerminalMode::KeyboardEnhancement));
        plan
    }

    /// Whether `mode` was entered and not yet left.
    pub fn has_entered(&self, mode: TerminalMode) -> (entered: bool)
        ensures
            entered == self@.contains(mode),
    {
        let mut i: usize = 0;
        while i < self.entered.len()
            invariant
                i <= self.entered.len(),
                forall|j: int| 0 <= j < i ==> self@[j] != mode,
            decreases self.entered.len() - i,
        {
            if self.entered[i] == mode {
                return true;
            }
            i = i + 1;
        }
        false
    }

    /// Records that the terminal was put in `mode`. A mode that is already
    /// recorded is not recorded again, so that it is left only once; the
    /// result tells whether the mode was new.
    pub fn record_entered(&mut self, mode: TerminalMode) -> (recorded: bool)
        ensures
            recorded == !old(self)@.contains(mode),
            final(self)@ == (if recorded {
                old(self)@.push(mode)
            } else {
                old(self)@
            }),
            old(self)@.no_duplicates() ==> final(self)@.no_duplicates(),
    {
        if self.has_entered(mode) {
            false
        } else {
            self.entered.push(mode);
            true
        }
    }

    /// Whether nothing is left to restore.
    pub fn is_restored(&self) -> (restored: bool)
        ensures
            restored == (self@.len() == 0),
    {
        self.entered.len() == 0
    }

    /// Hands out the actions that restore the terminal and forgets the modes
    /// at once: a second teardown, also one that starts while the actions of
    /// the first are still being carried out, gets no action at all.
    pub fn teardown(&mut self) -> (actions: Vec<TerminalAction>)
        ensures
            actions@ == teardown_plan(old(self)@),
            final(self)@ == Seq::<TerminalMode>::empty(),
    {
        let mut actions: Vec<TerminalAction> = Vec::new();
        let ghost entered = self.entered@;
        let mut left: usize = self.entered.len();
        if left == 0 {
            return actions;
        }
        assert(entered.take(left as int) == entered);
        assert(actions@ + leaves(entered) == leaves(entered));
        while left > 0
            invariant
                left <= entered.len(),
                self.entered@ == entered,
                entered == old(self)@,
                leaves(entered) == actions@ + leaves(entered.take(left as int)),
            decreases left,
        {
            left = left - 1;
            actions.push(TerminalAction::Leave(self.entered[left]));
            proof {
                let before = entered.take(left + 1);
                assert(before.last() == entered[left as int]);
                assert(before.drop_last() == entered.take(left as int));
                assert(leaves(before) == seq![TerminalAction::Leave(before.last())] + leaves(
                    before.drop_last(),
                ));
                assert(actions@ + leaves(entered.take(left as int)) == actions@.drop_last() + (
                seq![TerminalAction::Leave(before.last())] + leaves(before.drop_last())));
            }
        }
        assert(entered.take(0).len() == 0);
        assert(actions@ + Seq::<TerminalAction>::empty() == actions@);
        actions.push(TerminalAction::Flush);
        self.entered.clear();
        actions
    }
}

/// Teardown happens once: after a teardown the session holds no mode, and
/// the plan for a session without modes is empty.
pub proof fn lemma_second_teardown_is_empty()
    ensures
        teardown_plan(Seq::<TerminalMode>::empty()) == Seq::<TerminalAction>::empty(),
{
}

/// In the plan no mode is left twice, provided that none was recorded twice.
pub proof fn lemma_teardown_leaves_each_once(entered: Seq<TerminalMode>, i: int, j: int)
    requires
        entered.no_duplicates(),
        0 <= i < j < entered.len(),
    ensures
        teardown_plan(entered)[i] != teardown_plan(entered)[j],
        teardown_plan(entered).len() == entered.len() + 1,
        teardown_plan(entered).last() == TerminalAction::Flush,
{
    lemma_leaves_reverse(entered, i);
    lemma_leaves_reverse(entered, j);
}

} // verus!
