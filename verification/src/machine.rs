//! The stack machine, stated as a function from state and outcome to state
//! and event.
//!
//! A session is a stack of frames, each a timeline and a cursor into it. One
//! step looks at the statement under the cursor of the top frame and yields
//! at most one event. What a step needs from the expression evaluator, the
//! truth of a guard or the value of an assigned expression, is handed to it
//! as an [`Outcome`], so that the step itself is a function.

use vstd::prelude::*;
use crate::statement::Statement;
use crate::scope::{choice_end, dialogue_end, offered_choices};
use crate::registry::position_of;

verus! {

/// What the driver may do next.
#[derive(Debug, Clone, Copy, PartialEq, Eq, Structural)]
pub enum Phase {
    /// No event is pending; the next call is a step.
    Idle,
    /// The last event was a dialogue without a visible choice; the next call
    /// is a step.
    AwaitingAdvance,
    /// The last event was a dialogue with a visible choice; the next call
    /// selects one.
    AwaitingChoice,
}

/// Why a call was refused. A refused call leaves the session as it was.
#[derive(Debug, Clone, Copy, PartialEq, Eq, Structural)]
pub enum ServerError {
    /// A jump, or a start, names a timeline that the registry does not hold.
    UnknownTimeline,
    /// An assignment to a variable that the context does not hold, or an
    /// expression that reads one.
    UnknownVariable,
    /// An expression that cannot be evaluated, or a guard that is no boolean.
    InvalidExpression,
    /// A selection beyond the listed choices, or of a suppressed one.
    InvalidChoiceIndex,
    /// A dialogue or a choice whose terminator is missing.
    MalformedStatementStream,
    /// A step was asked for while a choice is awaited.
    ChoicePending,
    /// A selection was made while no choice is awaited.
    NoChoicePending,
    /// The outcome handed to a step is not one that the statement under the
    /// cursor can have.
    UnfitOutcome,
}

/// What the session shows to its driver.
#[derive(Debug, PartialEq)]
pub enum Event {
    /// A line to show, with the choices that the dialogue offers in source
    /// order. The flag of a choice tells that it is suppressed.
    Dialogue { speaker: Option<String>, text: String, choices: Vec<(String, bool)> },
    /// A variable was assigned; the driver keeps the context.
    SetVariable { variable_name: String, new_value: evalexpr::Value },
    /// Nothing to show; step again.
    Ignore,
}

/// An event with its strings as sequences of characters.
pub enum EventView {
    Dialogue { speaker: Option<Seq<char>>, text: Seq<char>, choices: Seq<(Seq<char>, bool)> },
    SetVariable { variable_name: Seq<char>, new_value: evalexpr::Value },
    Ignore,
}

impl View for Event {
    type V = EventView;

    open spec fn view(&self) -> EventView {
        match *self {
            Event::Dialogue { speaker, text, choices } => EventView::Dialogue {
                speaker: match speaker {
                    Some(name) => Some(name@),
                    None => None,
                },
                text: text@,
                choices: Seq::new(choices.len() as nat, |i: int| (choices[i].0@, choices[i].1)),
            },
            Event::SetVariable { variable_name, new_value } => EventView::SetVariable {
                variable_name: variable_name@,
                new_value,
            },
            Event::Ignore => EventView::Ignore,
        }
    }
}

/// What the evaluator found for the statement under the cursor.
#[derive(Debug)]
pub enum Outcome {
    /// The statement has nothing to evaluate.
    Nothing,
    /// The guard of the dialogue does not hold.
    Hidden,
    /// The dialogue is shown; for each choice it offers, in source order,
    /// whether the guard of the choice fails.
    Shown(Vec<bool>),
    /// The value of the assigned expression.
    Assigned(evalexpr::Value),
}

/// An outcome with its flags as a sequence.
pub enum OutcomeView {
    Nothing,
    Hidden,
    Shown(Seq<bool>),
    Assigned(evalexpr::Value),
}

impl View for Outcome {
    type V = OutcomeView;

    open spec fn view(&self) -> OutcomeView {
        match *self {
            Outcome::Nothing => OutcomeView::Nothing,
            Outcome::Hidden => OutcomeView::Hidden,
            Outcome::Shown(flags) => OutcomeView::Shown(flags@),
            Outcome::Assigned(value) => OutcomeView::Assigned(value),
        }
    }
}

/// The outcome that a dialogue has when its guard and the guards of the
/// choices that it offers were found to be as given. `None` stands for a
/// guard that is not there, which counts as true. The dialogue is hidden
/// exactly if its guard is false; in a dialogue that is shown, a choice is
/// suppressed exactly if its guard is false.
pub open spec fn outcome_of(guard: Option<bool>, choices: Seq<Option<bool>>) -> OutcomeView {
    if guard == Some(false) {
        OutcomeView::Hidden
    } else {
        OutcomeView::Shown(Seq::new(choices.len(), |i: int| choices[i] == Some(false)))
    }
}

/// Makes what was found of the guards of a dialogue and of its choices, in
/// source order, into the outcome of the step at that dialogue.
pub fn outcome_from(guard: Option<bool>, choices: &Vec<Option<bool>>) -> (r: Outcome)
    ensures
        r@ == outcome_of(guard, choices@),
{
    if let Some(false) = guard {
        return Outcome::Hidden;
    }
    let n: usize = choices.len();
    let mut flags: Vec<bool> = Vec::new();
    let mut i: usize = 0;
    while i < n
        invariant
            n == choices.len(),
            i <= n,
            flags.len() == i,
            forall|k: int| 0 <= k < i ==> flags[k] == (choices[k] == Some(false)),
        decreases n - i,
    {
        let suppressed: bool = match choices[i] {
            Some(false) => true,
            _ => false,
        };
        flags.push(suppressed);
        i = i + 1;
    }
    assert(flags@ =~= Seq::new(choices@.len(), |i: int| choices@[i] == Some(false)));
    Outcome::Shown(flags)
}

/// The listed choices that can be taken, for a front end to offer: their
/// lines, and for each the index under which it is listed, which is the
/// index to select it by. Both are in the order of the list.
pub fn visible_choices(choices: &Vec<(String, bool)>) -> (r: (Vec<String>, Vec<usize>))
    ensures
        r.0.len() == r.1.len(),
        forall|k: int|
            0 <= k < r.1.len() ==> (#[trigger] r.1[k]) < choices.len() && !choices[r.1[k] as int].1
                && r.0[k]@ == choices[r.1[k] as int].0@,
        forall|k: int, l: int| 0 <= k < l < r.1.len() ==> r.1[k] < r.1[l],
        forall|i: int| 0 <= i < choices.len() && !choices[i].1 ==> r.1@.contains(i as usize),
{
    let n: usize = choices.len();
    let mut lines: Vec<String> = Vec::new();
    let mut indices: Vec<usize> = Vec::new();
    let mut i: usize = 0;
    while i < n
        invariant
            n == choices.len(),
            i <= n,
            lines.len() == indices.len(),
            forall|k: int|
                0 <= k < indices.len() ==> (#[trigger] indices[k]) < i && !choices[indices[k] as int].1
                    && lines[k]@ == choices[indices[k] as int].0@,
            forall|k: int, l: int| 0 <= k < l < indices.len() ==> indices[k] < indices[l],
            forall|j: int| 0 <= j < i && !choices[j].1 ==> indices@.contains(j as usize),
        decreases n - i,
    {
        if !choices[i].1 {
            let ghost before = indices@;
            lines.push(choices[i].0.clone());
            indices.push(i);
            assert forall|j: int| 0 <= j <= i && !choices[j].1 implies indices@.contains(
                j as usize,
            ) by {
                if j < i {
                    let k = choose|k: int| 0 <= k < before.len() && before[k] == j as usize;
                    assert(indices@[k] == j as usize);
                } else {
                    assert(indices@[indices.len() - 1] == i);
                }
            }
        }
        i = i + 1;
    }
    (lines, indices)
}

/// A timeline, by its place in the registry, and the position of the next
/// statement to run in it.
pub struct Frame {
    pub timeline: int,
    pub cursor: int,
}

/// The state of a play session.
pub struct Session {
    /// The frames, the entry timeline first and the running one last.
    pub stack: Seq<Frame>,
    pub phase: Phase,
    /// The positions of the choices that the last dialogue listed.
    pub offered: Seq<int>,
    /// For each listed choice, whether it is suppressed.
    pub suppressed: Seq<bool>,
}

/// A session after a call, and what the call returned.
pub struct Step {
    pub session: Session,
    pub result: Result<Option<EventView>, ServerError>,
}

/// A session after a selection, and what the selection returned.
pub struct Selection {
    pub session: Session,
    pub result: Result<(), ServerError>,
}

/// Some flag is off: a choice can be taken.
pub open spec fn some_visible(suppressed: Seq<bool>) -> bool {
    exists|i: int| 0 <= i < suppressed.len() && !suppressed[i]
}

/// The flags are one for each offered choice, and none suppresses a choice
/// without a guard.
pub open spec fn flags_fit(timeline: Seq<Statement>, offered: Seq<int>, flags: Seq<bool>) -> bool {
    &&& flags.len() == offered.len()
    &&& forall|i: int|
        0 <= i < offered.len() && timeline[offered[i]].guard() is None ==> !#[trigger] flags[i]
}

/// The choices as a dialogue event lists them.
pub open spec fn listed(timeline: Seq<Statement>, offered: Seq<int>, flags: Seq<bool>) -> Seq<
    (Seq<char>, bool),
> {
    Seq::new(offered.len(), |i: int| (timeline[offered[i]].line(), flags[i]))
}

impl Session {
    /// The session before it is started, and after it has ended.
    pub open spec fn ended() -> Session {
        Session {
            stack: Seq::empty(),
            phase: Phase::Idle,
            offered: Seq::empty(),
            suppressed: Seq::empty(),
        }
    }

    /// The session with the given frames and nothing pending.
    pub open spec fn idle_with(stack: Seq<Frame>) -> Session {
        Session { stack, phase: Phase::Idle, offered: Seq::empty(), suppressed: Seq::empty() }
    }

    /// The frames with the cursor of the running one set to `cursor`.
    pub open spec fn stack_at(self, cursor: int) -> Seq<Frame> {
        self.stack.update(
            self.stack.len() - 1,
            Frame { timeline: self.stack.last().timeline, cursor },
        )
    }

    /// Every frame names a timeline of `scripts`, and an awaited choice can
    /// be made: some listed choice is visible, and each lies in the running
    /// timeline, not before the cursor.
    pub open spec fn valid(self, scripts: Seq<Seq<Statement>>) -> bool {
        &&& forall|i: int|
            0 <= i < self.stack.len() ==> {
                &&& 0 <= (#[trigger] self.stack[i]).timeline < scripts.len()
                &&& 0 <= self.stack[i].cursor
            }
        &&& !(self.phase is Idle) ==> self.stack.len() > 0
        &&& self.phase is AwaitingChoice ==> {
            &&& self.offered.len() == self.suppressed.len()
            &&& some_visible(self.suppressed)
            &&& forall|i: int|
                0 <= i < self.offered.len() ==> self.stack.last().cursor
                    <= #[trigger] self.offered[i] < scripts[self.stack.last().timeline].len()
        }
    }
}

/// The statement under the cursor of the running frame, if the session
/// would run it on its next step.
pub open spec fn current(scripts: Seq<Seq<Statement>>, session: Session) -> Option<Statement> {
    if session.phase is AwaitingChoice || session.stack.len() == 0 {
        None
    } else {
        let top = session.stack.last();
        if 0 <= top.cursor < scripts[top.timeline].len() {
            Some(scripts[top.timeline][top.cursor])
        } else {
            None
        }
    }
}

/// A refused call.
pub open spec fn refuse(session: Session, error: ServerError) -> Step {
    Step { session, result: Err(error) }
}

/// One step of the machine.
///
/// `names` and `scripts` are the registry by place. The step is refused
/// while a choice is awaited. With no frame left, the session has ended and
/// there is no event. A frame whose cursor is past its timeline is dropped:
/// that ends the session if it was the last one, and else yields `Ignore`
/// with the caller's frame on top. Otherwise the statement under the cursor
/// decides:
/// - a terminator is passed with `Ignore`;
/// - a choice that was not selected is skipped up to and including its
///   `EndChoice`, with `Ignore`;
/// - a jump moves the cursor past itself and puts the target's frame on top,
///   with `Ignore`;
/// - an assignment reports the variable with the value of the outcome;
/// - a dialogue whose guard fails is skipped up to and including its
///   `EndDialogue`, with `Ignore`; one that is shown lists its choices and
///   leaves the cursor behind its opener.
pub open spec fn step(
    names: Seq<Seq<char>>,
    scripts: Seq<Seq<Statement>>,
    session: Session,
    outcome: OutcomeView,
) -> Step {
    if session.phase is AwaitingChoice {
        refuse(session, ServerError::ChoicePending)
    } else if session.stack.len() == 0 {
        Step { session, result: Ok(None) }
    } else {
        let top = session.stack.last();
        let timeline = scripts[top.timeline];
        let cursor = top.cursor;
        if cursor >= timeline.len() {
            let rest = session.stack.drop_last();
            Step {
                session: Session::idle_with(rest),
                result: if rest.len() == 0 {
                    Ok(None)
                } else {
                    Ok(Some(EventView::Ignore))
                },
            }
        } else {
            match timeline[cursor] {
                Statement::EndDialogue | Statement::EndChoice => if outcome is Nothing {
                    Step {
                        session: Session::idle_with(session.stack_at(cursor + 1)),
                        result: Ok(Some(EventView::Ignore)),
                    }
                } else {
                    refuse(session, ServerError::UnfitOutcome)
                },
                Statement::Choice { .. } => if outcome is Nothing {
                    match choice_end(timeline, cursor) {
                        Some(end) => Step {
                            session: Session::idle_with(session.stack_at(end + 1)),
                            result: Ok(Some(EventView::Ignore)),
                        },
                        None => refuse(session, ServerError::MalformedStatementStream),
                    }
                } else {
                    refuse(session, ServerError::UnfitOutcome)
                },
                Statement::Jump { target } => if outcome is Nothing {
                    match position_of(names, target@) {
                        Some(place) => Step {
                            session: Session::idle_with(
                                session.stack_at(cursor + 1).push(
                                    Frame { timeline: place, cursor: 0 },
                                ),
                            ),
                            result: Ok(Some(EventView::Ignore)),
                        },
                        None => refuse(session, ServerError::UnknownTimeline),
                    }
                } else {
                    refuse(session, ServerError::UnfitOutcome)
                },
                Statement::Assign { variable, .. } => match outcome {
                    OutcomeView::Assigned(value) => Step {
                        session: Session::idle_with(session.stack_at(cursor + 1)),
                        result: Ok(
                            Some(EventView::SetVariable { variable_name: variable@, new_value: value }),
                        ),
                    },
                    _ => refuse(session, ServerError::UnfitOutcome),
                },
                Statement::Dialogue { speaker, text, condition } => match offered_choices(
                    timeline,
                    cursor,
                ) {
                    None => refuse(session, ServerError::MalformedStatementStream),
                    Some(offered) => match outcome {
                        OutcomeView::Hidden => if condition is Some {
                            Step {
                                session: Session::idle_with(
                                    session.stack_at(dialogue_end(timeline, cursor).unwrap() + 1),
                                ),
                                result: Ok(Some(EventView::Ignore)),
                            }
                        } else {
                            refuse(session, ServerError::UnfitOutcome)
                        },
                        OutcomeView::Shown(flags) => if flags_fit(timeline, offered, flags) {
                            Step {
                                session: Session {
                                    stack: session.stack_at(cursor + 1),
                                    phase: if some_visible(flags) {
                                        Phase::AwaitingChoice
                                    } else {
                                        Phase::AwaitingAdvance
                                    },
                                    offered,
                                    suppressed: flags,
                                },
                                result: Ok(
                                    Some(
                                        EventView::Dialogue {
                                            speaker: match speaker {
                                                Some(name) => Some(name@),
                                                None => None,
                                            },
                                            text: text@,
                                            choices: listed(timeline, offered, flags),
                                        },
                                    ),
                                ),
                            }
                        } else {
                            refuse(session, ServerError::UnfitOutcome)
                        },
                        _ => refuse(session, ServerError::UnfitOutcome),
                    },
                },
            }
        }
    }
}

/// The selection of the listed choice `index`.
///
/// It is refused unless a choice is awaited, and unless `index` is that of a
/// listed choice that is not suppressed. Otherwise the cursor moves to the
/// first statement of the body of that choice.
pub open spec fn select(session: Session, index: int) -> Selection {
    if !(session.phase is AwaitingChoice) {
        Selection { session, result: Err(ServerError::NoChoicePending) }
    } else if !(0 <= index < session.offered.len()) || session.suppressed[index] {
        Selection { session, result: Err(ServerError::InvalidChoiceIndex) }
    } else {
        Selection {
            session: Session::idle_with(session.stack_at(session.offered[index] + 1)),
            result: Ok(()),
        }
    }
}

} // verus!
