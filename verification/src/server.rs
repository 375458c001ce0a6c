//! The interpreter: a registry of timelines, a context and a session, driven
//! one event at a time.

use vstd::prelude::*;
use crate::context::{assigned_value, guard_holds, Context};
use crate::machine::{
    current, flags_fit, listed, outcome_from, outcome_of, select, some_visible, step, Event,
    EventView, Frame, Outcome, OutcomeView, Phase, Selection, ServerError, Session, Step,
};
use crate::registry::{position_of, Registry};
use crate::scope::{
    as_positions, choices_before, collect_choices, dialogue_end, find_choice_end,
    find_dialogue_end, offered_choices, is_offered, lemma_choices_before,
};
use crate::statement::{clone_optional, Statement};

verus! {

/// What a call returned, with the event by its view.
pub open spec fn result_view(r: Result<Option<Event>, ServerError>) -> Result<
    Option<EventView>,
    ServerError,
> {
    match r {
        Ok(Some(event)) => Ok(Some(event@)),
        Ok(None) => Ok(None),
        Err(error) => Err(error),
    }
}

/// The session as the interpreter keeps it: two stacks side by side, one of
/// timelines by place and one of cursors, and the choices last listed.
struct Run {
    timeline_stack: Vec<usize>,
    index_stack: Vec<usize>,
    phase: Phase,
    offered: Vec<usize>,
    suppressed: Vec<bool>,
}

impl Run {
    /// The two stacks have one entry for each frame.
    spec fn paired(self) -> bool {
        self.timeline_stack.len() == self.index_stack.len()
    }

    spec fn view(self) -> Session {
        Session {
            stack: Seq::new(
                self.timeline_stack.len() as nat,
                |i: int|
                    Frame {
                        timeline: self.timeline_stack[i] as int,
                        cursor: self.index_stack[i] as int,
                    },
            ),
            phase: self.phase,
            offered: as_positions(self.offered@),
            suppressed: self.suppressed@,
        }
    }

    fn ended() -> (r: Run)
        ensures
            r.paired(),
            r@ == Session::ended(),
            r.timeline_stack.len() == 0,
            r.index_stack.len() == 0,
            r.offered.len() == 0,
            r.suppressed.len() == 0,
            r.phase is Idle,
    {
        let r = Run {
            timeline_stack: Vec::new(),
            index_stack: Vec::new(),
            phase: Phase::Idle,
            offered: Vec::new(),
            suppressed: Vec::new(),
        };
        assert(r@.stack =~= Seq::<Frame>::empty());
        assert(r@.offered =~= Seq::<int>::empty());
        r
    }

    /// Forgets the choices last listed.
    fn settle(&mut self)
        ensures
            final(self).timeline_stack == old(self).timeline_stack,
            final(self).index_stack == old(self).index_stack,
            final(self)@ == Session::idle_with(old(self)@.stack),
    {
        self.phase = Phase::Idle;
        self.offered = Vec::new();
        self.suppressed = Vec::new();
        assert(self@.offered =~= Seq::<int>::empty());
    }

    /// Sets the cursor of the running frame.
    fn move_to(&mut self, cursor: usize)
        requires
            old(self).paired(),
            old(self).timeline_stack.len() > 0,
        ensures
            final(self).paired(),
            final(self)@ == Session::idle_with(old(self)@.stack_at(cursor as int)),
    {
        let top: usize = self.index_stack.len() - 1;
        self.index_stack.set(top, cursor);
        assert(self@.stack =~= old(self)@.stack_at(cursor as int));
        self.settle();
    }

    /// Puts a frame for the timeline at `place` on top.
    fn enter(&mut self, place: usize)
        requires
            old(self).paired(),
        ensures
            final(self).paired(),
            final(self)@ == Session::idle_with(
                old(self)@.stack.push(Frame { timeline: place as int, cursor: 0 }),
            ),
    {
        self.timeline_stack.push(place);
        self.index_stack.push(0);
        assert(self@.stack =~= old(self)@.stack.push(Frame { timeline: place as int, cursor: 0 }));
        self.settle();
    }

    /// Drops the running frame.
    fn leave(&mut self)
        requires
            old(self).paired(),
            old(self).timeline_stack.len() > 0,
        ensures
            final(self).paired(),
            final(self)@ == Session::idle_with(old(self)@.stack.drop_last()),
    {
        self.timeline_stack.pop();
        self.index_stack.pop();
        assert(self@.stack =~= old(self)@.stack.drop_last());
        self.settle();
    }
}

/// Lists the offered choices with their flags, provided the flags fit, and
/// tells whether one of them is visible.
fn list_choices(timeline: &Vec<Statement>, offered: &Vec<usize>, flags: &Vec<bool>) -> (r: Option<
    (Vec<(String, bool)>, bool),
>)
    requires
        forall|i: int|
            0 <= i < offered.len() ==> offered[i] < timeline.len() && timeline[offered[i] as int]
                is Choice,
    ensures
        flags_fit(timeline@, as_positions(offered@), flags@) ==> r is Some,
        r matches Some((choices, visible)) ==> {
            &&& flags_fit(timeline@, as_positions(offered@), flags@)
            &&& Seq::new(choices.len() as nat, |i: int| (choices[i].0@, choices[i].1)) == listed(
                timeline@,
                as_positions(offered@),
                flags@,
            )
            &&& visible == some_visible(flags@)
        },
{
    let n: usize = offered.len();
    if flags.len() != n {
        return None;
    }
    let ghost positions = as_positions(offered@);
    let mut choices: Vec<(String, bool)> = Vec::new();
    let mut visible: bool = false;
    let mut i: usize = 0;
    while i < n
        invariant
            n == offered.len(),
            n == flags.len(),
            i <= n,
            positions == as_positions(offered@),
            forall|k: int|
                0 <= k < offered.len() ==> offered[k] < timeline.len()
                    && timeline[offered[k] as int] is Choice,
            choices.len() == i,
            forall|k: int|
                0 <= k < i ==> (#[trigger] choices[k]).0@ == timeline[positions[k]].line()
                    && choices[k].1 == flags[k],
            forall|k: int|
                0 <= k < i && timeline[positions[k]].guard() is None ==> !#[trigger] flags[k],
            visible == exists|k: int| 0 <= k < i && !flags[k],
        decreases n - i,
    {
        let flag: bool = flags[i];
        match &timeline[offered[i]] {
            Statement::Choice { text, condition } => {
                if flag && condition.is_none() {
                    return None;
                }
                choices.push((text.clone(), flag));
            },
            _ => {
                choices.push((String::new(), flag));
            },
        }
        if !flag {
            visible = true;
        }
        i = i + 1;
    }
    assert(Seq::new(choices.len() as nat, |i: int| (choices[i].0@, choices[i].1)) =~= listed(
        timeline@,
        positions,
        flags@,
    ));
    Some((choices, visible))
}

/// Runs one step of the machine on `run`.
fn drive(registry: &Registry, run: &mut Run, outcome: Outcome) -> (r: Result<
    Option<Event>,
    ServerError,
>)
    requires
        old(run).paired(),
        old(run)@.valid(registry.scripts()),
    ensures
        final(run).paired(),
        final(run)@.valid(registry.scripts()),
        step(registry.names(), registry.scripts(), old(run)@, outcome@) == (Step {
            session: final(run)@,
            result: result_view(r),
        }),
{
    proof {
        registry.lemma_same_length();
    }
    if let Phase::AwaitingChoice = run.phase {
        return Err(ServerError::ChoicePending);
    }
    let depth: usize = run.timeline_stack.len();
    if depth == 0 {
        return Ok(None);
    }
    let place: usize = run.timeline_stack[depth - 1];
    let cursor: usize = run.index_stack[depth - 1];
    assert(run@.stack.last() == Frame { timeline: place as int, cursor: cursor as int });
    let timeline: &Vec<Statement> = match registry.statements(place) {
        Some(found) => found,
        None => {
            return Err(ServerError::MalformedStatementStream);
        },
    };
    if cursor >= timeline.len() {
        run.leave();
        return if depth == 1 {
            Ok(None)
        } else {
            Ok(Some(Event::Ignore))
        };
    }
    match &timeline[cursor] {
        Statement::EndDialogue | Statement::EndChoice => match outcome {
            Outcome::Nothing => {
                run.move_to(cursor + 1);
                Ok(Some(Event::Ignore))
            },
            _ => Err(ServerError::UnfitOutcome),
        },
        Statement::Choice { .. } => match outcome {
            Outcome::Nothing => match find_choice_end(timeline, cursor) {
                Some(end) => {
                    run.move_to(end + 1);
                    Ok(Some(Event::Ignore))
                },
                None => Err(ServerError::MalformedStatementStream),
            },
            _ => Err(ServerError::UnfitOutcome),
        },
        Statement::Jump { target } => match outcome {
            Outcome::Nothing => match registry.find(target.as_str()) {
                Some(target_place) => {
                    run.move_to(cursor + 1);
                    run.enter(target_place);
                    Ok(Some(Event::Ignore))
                },
                None => Err(ServerError::UnknownTimeline),
            },
            _ => Err(ServerError::UnfitOutcome),
        },
        Statement::Assign { variable, .. } => match outcome {
            Outcome::Assigned(value) => {
                run.move_to(cursor + 1);
                Ok(Some(Event::SetVariable { variable_name: variable.clone(), new_value: value }))
            },
            _ => Err(ServerError::UnfitOutcome),
        },
        Statement::Dialogue { speaker, text, condition } => {
            let offered: Vec<usize> = match collect_choices(timeline, cursor) {
                Some(found) => found,
                None => {
                    return Err(ServerError::MalformedStatementStream);
                },
            };
            let end: usize = match find_dialogue_end(timeline, cursor) {
                Some(found) => found,
                None => {
                    return Err(ServerError::MalformedStatementStream);
                },
            };
            proof {
                lemma_choices_before(timeline@, cursor as int, end as int);
                let found = choices_before(timeline@, cursor as int, end as int);
                assert(found == as_positions(offered@));
                assert forall|i: int| 0 <= i < offered.len() implies offered[i] < timeline.len()
                    && timeline[offered[i] as int] is Choice by {
                    assert(found[i] == offered[i] as int);
                    assert(is_offered(timeline@, cursor as int, found[i]));
                }
            }
            match outcome {
                Outcome::Hidden => {
                    if condition.is_none() {
                        return Err(ServerError::UnfitOutcome);
                    }
                    run.move_to(end + 1);
                    Ok(Some(Event::Ignore))
                },
                Outcome::Shown(flags) => {
                    let (choices, visible) = match list_choices(timeline, &offered, &flags) {
                        Some(found) => found,
                        None => {
                            return Err(ServerError::UnfitOutcome);
                        },
                    };
                    run.move_to(cursor + 1);
                    run.phase = if visible {
                        Phase::AwaitingChoice
                    } else {
                        Phase::AwaitingAdvance
                    };
                    run.offered = offered;
                    run.suppressed = flags;
                    Ok(
                        Some(
                            Event::Dialogue {
                                speaker: clone_optional(speaker),
                                text: text.clone(),
                                choices,
                            },
                        ),
                    )
                },
                _ => Err(ServerError::UnfitOutcome),
            }
        },
    }
}

/// The next step has an expression to evaluate: that of an assignment, or
/// the guard of a dialogue or of a choice that it offers.
pub open spec fn evaluates(scripts: Seq<Seq<Statement>>, session: Session) -> bool {
    match current(scripts, session) {
        Some(Statement::Assign { .. }) => true,
        Some(Statement::Dialogue { condition, .. }) => {
            let top = session.stack.last();
            let timeline = scripts[top.timeline];
            match offered_choices(timeline, top.cursor) {
                Some(offered) => condition is Some || exists|i: int|
                    0 <= i < offered.len() && timeline[#[trigger] offered[i]].guard() is Some,
                None => false,
            }
        },
        _ => false,
    }
}

/// The next step is an assignment to a variable that `declared` lacks.
pub open spec fn assigns_undeclared(
    scripts: Seq<Seq<Statement>>,
    session: Session,
    declared: Set<Seq<char>>,
) -> bool {
    match current(scripts, session) {
        Some(Statement::Assign { variable, .. }) => !declared.contains(variable@),
        _ => false,
    }
}

/// What is found of the guards of the first `count` choices that a
/// dialogue offers, in source order: for each its truth, with `None` for a
/// choice without a guard; or the failure of the first guard that fails.
pub open spec fn choice_findings(
    timeline: Seq<Statement>,
    offered: Seq<int>,
    context: Context,
    count: int,
) -> Result<Seq<Option<bool>>, ServerError>
    decreases count,
{
    if count <= 0 {
        Ok(Seq::empty())
    } else {
        match choice_findings(timeline, offered, context, count - 1) {
            Ok(found) => match timeline[offered[count - 1]].guard() {
                Some(text) => match context.guard(text) {
                    Ok(holds) => Ok(found.push(Some(holds))),
                    Err(error) => Err(error),
                },
                None => Ok(found.push(None)),
            },
            Err(error) => Err(error),
        }
    }
}

/// The outcome that evaluation in `context` has for the next step, or the
/// failure that it ends in.
///
/// An assignment has the value of its expression. A dialogue whose guard is
/// false is hidden, and the guards of its choices are not evaluated; any
/// other dialogue is shown, with each choice suppressed exactly if its
/// guard is false. A guard that is not there is true. The first evaluation
/// that fails, the guard of the dialogue before those of the choices, and
/// those in source order, is the failure. Nothing is evaluated for a
/// statement of another kind, for a dialogue without an end, or when no
/// statement is to be run.
pub open spec fn evaluated(
    scripts: Seq<Seq<Statement>>,
    session: Session,
    context: Context,
) -> Result<OutcomeView, ServerError> {
    match current(scripts, session) {
        Some(Statement::Assign { variable, expression }) => match context.assigned(
            variable@,
            expression@,
        ) {
            Ok(value) => Ok(OutcomeView::Assigned(value)),
            Err(error) => Err(error),
        },
        Some(Statement::Dialogue { condition, .. }) => {
            let top = session.stack.last();
            let timeline = scripts[top.timeline];
            match offered_choices(timeline, top.cursor) {
                Some(offered) => {
                    let guard = match condition {
                        Some(text) => match context.guard(text@) {
                            Ok(holds) => Ok(Some(holds)),
                            Err(error) => Err(error),
                        },
                        None => Ok(None),
                    };
                    match guard {
                        Ok(Some(false)) => Ok(OutcomeView::Hidden),
                        Ok(known) => match choice_findings(
                            timeline,
                            offered,
                            context,
                            offered.len() as int,
                        ) {
                            Ok(found) => Ok(outcome_of(known, found)),
                            Err(error) => Err(error),
                        },
                        Err(error) => Err(error),
                    }
                },
                None => Ok(OutcomeView::Nothing),
            }
        },
        _ => Ok(OutcomeView::Nothing),
    }
}

/// A guard that failed among the first choices is the failure of them all.
pub proof fn lemma_first_failure_stays(
    timeline: Seq<Statement>,
    offered: Seq<int>,
    context: Context,
    count: int,
    more: int,
)
    requires
        choice_findings(timeline, offered, context, count) is Err,
        count <= more,
    ensures
        choice_findings(timeline, offered, context, more) == choice_findings(
            timeline,
            offered,
            context,
            count,
        ),
    decreases more - count,
{
    if count < more {
        lemma_first_failure_stays(timeline, offered, context, count, more - 1);
    }
}

/// What a call that evaluates for itself may do to a session.
///
/// Either it is a step of the machine on an outcome that fits the statement
/// under the cursor; or the statement has an expression to evaluate, the
/// evaluation failed, and the session is as it was.
pub open spec fn follows(
    names: Seq<Seq<char>>,
    scripts: Seq<Seq<Statement>>,
    before: Session,
    after: Session,
    result: Result<Option<EventView>, ServerError>,
) -> bool {
    ||| exists|outcome: OutcomeView|
        {
            &&& #[trigger] step(names, scripts, before, outcome) == (Step {
                session: after,
                result,
            })
            &&& !(result matches Err(ServerError::UnfitOutcome))
        }
    ||| {
        &&& evaluates(scripts, before)
        &&& after == before
        &&& (result matches Err(ServerError::UnknownVariable) || result matches Err(
            ServerError::InvalidExpression,
        ))
    }
}

/// An interpreter over a registry of timelines.
///
/// The driver pulls events with [`Server::next`]. After a dialogue with a
/// visible choice it answers with [`Server::select`]; after an assignment it
/// may hand in an updated context with [`Server::set_context`].
pub struct Server {
    registry: Registry,
    context: Context,
    run: Run,
}

impl Server {
    #[verifier::type_invariant]
    spec fn sound(self) -> bool {
        &&& self.run.paired()
        &&& self.run@.valid(self.registry.scripts())
    }

    /// The timelines that the interpreter runs.
    pub closed spec fn registry(self) -> Registry {
        self.registry
    }

    /// The context that guards and assignments are evaluated in.
    pub closed spec fn context(self) -> Context {
        self.context
    }

    /// The state of the session.
    pub closed spec fn session(self) -> Session {
        self.run@
    }

    /// An interpreter that has not been started: its session has no frame.
    pub fn new(registry: Registry, context: Context) -> (r: Server)
        ensures
            r.registry() == registry,
            r.context() == context,
            r.session() == Session::ended(),
            r.session().valid(r.registry().scripts()),
    {
        Server { registry, context, run: Run::ended() }
    }

    /// What the driver may do next.
    pub fn phase(&self) -> (r: Phase)
        ensures
            r == self.session().phase,
    {
        self.run.phase
    }

    /// The timelines that the interpreter runs.
    pub fn timelines(&self) -> (r: &Registry)
        ensures
            *r == self.registry(),
    {
        &self.registry
    }

    /// The context that guards and assignments are evaluated in.
    pub fn current_context(&self) -> (r: &Context)
        ensures
            *r == self.context(),
    {
        &self.context
    }

    /// Whether no frame is left: the session has ended, or none was started.
    pub fn is_finished(&self) -> (r: bool)
        ensures
            r == (self.session().stack.len() == 0),
    {
        self.run.timeline_stack.len() == 0
    }

    /// The statement that the next step would run, if there is one.
    pub fn current_statement(&self) -> (r: Option<&Statement>)
        ensures
            current(self.registry().scripts(), self.session()) == match r {
                Some(statement) => Some(*statement),
                None => None,
            },
    {
        proof {
            use_type_invariant(self);
            self.registry.lemma_same_length();
        }
        if let Phase::AwaitingChoice = self.run.phase {
            return None;
        }
        let depth: usize = self.run.timeline_stack.len();
        if depth == 0 {
            return None;
        }
        let place: usize = self.run.timeline_stack[depth - 1];
        let cursor: usize = self.run.index_stack[depth - 1];
        assert(self.run@.stack.last() == Frame { timeline: place as int, cursor: cursor as int });
        match self.registry.statements(place) {
            Some(timeline) => if cursor < timeline.len() {
                Some(&timeline[cursor])
            } else {
                None
            },
            None => None,
        }
    }

    /// The frames of the session, the entry timeline first: each as the name
    /// of its timeline and its cursor. This is what there is to save of a
    /// session between two events.
    pub fn frames(&self) -> (r: Vec<(String, usize)>)
        ensures
            r.len() == self.session().stack.len(),
            forall|i: int|
                0 <= i < r.len() ==> {
                    &&& position_of(self.registry().names(), (#[trigger] r[i]).0@) == Some(
                        self.session().stack[i].timeline,
                    )
                    &&& r[i].1 == self.session().stack[i].cursor
                },
    {
        proof {
            use_type_invariant(self);
            self.registry.lemma_same_length();
        }
        let n: usize = self.run.timeline_stack.len();
        let mut out: Vec<(String, usize)> = Vec::new();
        let mut i: usize = 0;
        while i < n
            invariant
                n == self.run.timeline_stack.len(),
                self.run.paired(),
                self.run@.valid(self.registry.scripts()),
                self.registry.names().len() == self.registry.scripts().len(),
                i <= n,
                out.len() == i,
                forall|k: int|
                    0 <= k < i ==> {
                        &&& position_of(self.registry.names(), (#[trigger] out[k]).0@) == Some(
                            self.run@.stack[k].timeline,
                        )
                        &&& out[k].1 == self.run@.stack[k].cursor
                    },
            decreases n - i,
        {
            let place: usize = self.run.timeline_stack[i];
            assert(self.run@.stack[i as int].timeline == place);
            let name: String = match self.registry.name(place) {
                Some(found) => found.clone(),
                None => String::new(),
            };
            out.push((name, self.run.index_stack[i]));
            i = i + 1;
        }
        out
    }

    /// Starts a session from saved frames, the entry timeline first.
    /// Whatever session there was is dropped. If a frame names a timeline
    /// that the registry does not hold, the call is refused and changes
    /// nothing.
    pub fn resume(&mut self, frames: &Vec<(String, usize)>) -> (r: Result<(), ServerError>)
        ensures
            final(self).registry() == old(self).registry(),
            final(self).context() == old(self).context(),
            final(self).session().valid(final(self).registry().scripts()),
            (forall|i: int|
                0 <= i < frames.len() ==> position_of(
                    old(self).registry().names(),
                    (#[trigger] frames[i]).0@,
                ) is Some) ==> {
                &&& r is Ok
                &&& final(self).session() == Session::idle_with(
                    Seq::new(
                        frames.len() as nat,
                        |i: int|
                            Frame {
                                timeline: position_of(
                                    old(self).registry().names(),
                                    frames[i].0@,
                                ).unwrap(),
                                cursor: frames[i].1 as int,
                            },
                    ),
                )
            },
            (exists|i: int|
                0 <= i < frames.len() && position_of(
                    old(self).registry().names(),
                    (#[trigger] frames[i]).0@,
                ) is None) ==> {
                &&& r == Err::<(), ServerError>(ServerError::UnknownTimeline)
                &&& final(self).session() == old(self).session()
            },
    {
        proof {
            use_type_invariant(&*self);
            self.registry.lemma_same_length();
        }
        let ghost names = self.registry.names();
        let n: usize = frames.len();
        let mut run = Run::ended();
        let mut i: usize = 0;
        while i < n
            invariant
                n == frames.len(),
                i <= n,
                *self == *old(self),
                self.run@.valid(self.registry.scripts()),
                names == self.registry.names(),
                names.len() == self.registry.scripts().len(),
                run.paired(),
                run.timeline_stack.len() == i,
                run.phase is Idle,
                run.offered.len() == 0,
                run.suppressed.len() == 0,
                forall|k: int|
                    0 <= k < i ==> {
                        &&& position_of(names, (#[trigger] frames[k]).0@) == Some(
                            run.timeline_stack[k] as int,
                        )
                        &&& run.index_stack[k] == frames[k].1
                    },
            decreases n - i,
        {
            match self.registry.find(frames[i].0.as_str()) {
                Some(place) => {
                    run.timeline_stack.push(place);
                    run.index_stack.push(frames[i].1);
                },
                None => {
                    return Err(ServerError::UnknownTimeline);
                },
            }
            i = i + 1;
        }
        assert(run@.stack =~= Seq::new(
            frames.len() as nat,
            |i: int|
                Frame {
                    timeline: position_of(names, frames[i].0@).unwrap(),
                    cursor: frames[i].1 as int,
                },
        ));
        assert(run@.offered =~= Seq::<int>::empty());
        assert(run@.suppressed =~= Seq::<bool>::empty());
        self.run = run;
        Ok(())
    }

    /// Starts a session in the timeline called `timeline`, with the cursor
    /// at `index`. Whatever session there was is dropped. An unknown name is
    /// refused and changes nothing.
    pub fn start(&mut self, timeline: &str, index: usize) -> (r: Result<(), ServerError>)
        ensures
            final(self).session().valid(final(self).registry().scripts()),
            final(self).registry() == old(self).registry(),
            final(self).context() == old(self).context(),
            position_of(old(self).registry().names(), timeline@) matches Some(place) ==> {
                &&& r is Ok
                &&& final(self).session() == Session::idle_with(
                    seq![Frame { timeline: place, cursor: index as int }],
                )
            },
            position_of(old(self).registry().names(), timeline@) is None ==> {
                &&& r == Err::<(), ServerError>(ServerError::UnknownTimeline)
                &&& final(self).session() == old(self).session()
            },
    {
        proof {
            self.registry.lemma_same_length();
        }
        proof {
            use_type_invariant(&*self);
        }
        match self.registry.find(timeline) {
            Some(place) => {
                let mut run = Run::ended();
                run.timeline_stack.push(place);
                run.index_stack.push(index);
                assert(run@.stack =~= seq![Frame { timeline: place as int, cursor: index as int }]);
                self.run = run;
                Ok(())
            },
            None => Err(ServerError::UnknownTimeline),
        }
    }

    /// Replaces the context. The session is left as it is.
    pub fn set_context(&mut self, context: Context)
        ensures
            final(self).context() == context,
            final(self).registry() == old(self).registry(),
            final(self).session() == old(self).session(),
    {
        proof {
            use_type_invariant(&*self);
        }
        self.context = context;
    }

    /// Runs one step of the machine with the outcome that the caller has
    /// evaluated for the statement under the cursor.
    pub fn advance(&mut self, outcome: Outcome) -> (r: Result<Option<Event>, ServerError>)
        ensures
            final(self).session().valid(final(self).registry().scripts()),
            final(self).registry() == old(self).registry(),
            final(self).context() == old(self).context(),
            step(
                old(self).registry().names(),
                old(self).registry().scripts(),
                old(self).session(),
                outcome@,
            ) == (Step { session: final(self).session(), result: result_view(r) }),
    {
        proof {
            use_type_invariant(&*self);
        }
        let mut run = Run::ended();
        std::mem::swap(&mut run, &mut self.run);
        let r = drive(&self.registry, &mut run, outcome);
        self.run = run;
        r
    }

    /// Evaluates, in the context, what the statement under the cursor needs,
    /// and runs one step of the machine.
    ///
    /// An assignment to a variable that the context does not hold is refused
    /// as `UnknownVariable` before anything is evaluated. A guard or an
    /// assigned expression that reads an unbound variable is refused as
    /// `UnknownVariable`, any other failure to evaluate as
    /// `InvalidExpression`. The guards of the choices are evaluated only if
    /// the dialogue is shown. What the evaluations found is made into the
    /// outcome of the step by [`outcome_from`]: a dialogue is hidden exactly
    /// if its guard is false, and a choice suppressed exactly if its guard
    /// is false.
    pub fn next(&mut self) -> (r: Result<Option<Event>, ServerError>)
        ensures
            final(self).registry() == old(self).registry(),
            final(self).context() == old(self).context(),
            final(self).session().valid(final(self).registry().scripts()),
            follows(
                old(self).registry().names(),
                old(self).registry().scripts(),
                old(self).session(),
                final(self).session(),
                result_view(r),
            ),
            assigns_undeclared(
                old(self).registry().scripts(),
                old(self).session(),
                old(self).context().variables().dom(),
            ) ==> r matches Err(ServerError::UnknownVariable),
            match evaluated(old(self).registry().scripts(), old(self).session(), old(self).context()) {
                Ok(outcome) => step(
                    old(self).registry().names(),
                    old(self).registry().scripts(),
                    old(self).session(),
                    outcome,
                ) == (Step { session: final(self).session(), result: result_view(r) }),
                Err(error) => result_view(r) == Err::<Option<EventView>, ServerError>(error)
                    && final(self).session() == old(self).session(),
            },
    {
        proof {
            use_type_invariant(&*self);
            self.registry.lemma_same_length();
        }
        let ghost context = self.context;
        let ghost names = self.registry.names();
        let ghost scripts = self.registry.scripts();
        let ghost before = self.run@;
        if let Phase::AwaitingChoice = self.run.phase {
            return self.advance(Outcome::Nothing);
        }
        let depth: usize = self.run.timeline_stack.len();
        if depth == 0 {
            return self.advance(Outcome::Nothing);
        }
        let place: usize = self.run.timeline_stack[depth - 1];
        let cursor: usize = self.run.index_stack[depth - 1];
        assert(before.stack.last() == Frame { timeline: place as int, cursor: cursor as int });
        let timeline: &Vec<Statement> = match self.registry.statements(place) {
            Some(found) => found,
            None => {
                return self.advance(Outcome::Nothing);
            },
        };
        if cursor >= timeline.len() {
            return self.advance(Outcome::Nothing);
        }
        let outcome: Outcome = match &timeline[cursor] {
            Statement::Assign { variable, expression } => {
                match assigned_value(&self.context, variable.as_str(), expression.as_str()) {
                    Ok(value) => Outcome::Assigned(value),
                    Err(error) => {
                        return Err(error);
                    },
                }
            },
            Statement::Dialogue { condition, .. } => match collect_choices(timeline, cursor) {
                None => Outcome::Nothing,
                Some(offered) => {
                    let guard: Option<bool> = match condition {
                        Some(text) => match guard_holds(&self.context, text.as_str()) {
                            Ok(value) => Some(value),
                            Err(error) => {
                                return Err(error);
                            },
                        },
                        None => None,
                    };
                    let shown: bool = match guard {
                        Some(false) => false,
                        _ => true,
                    };
                    let ghost positions = as_positions(offered@);
                    let mut found: Vec<Option<bool>> = Vec::new();
                    if shown {
                        proof {
                            let end = dialogue_end(timeline@, cursor as int).unwrap();
                            lemma_choices_before(timeline@, cursor as int, end);
                            assert forall|i: int| 0 <= i < offered.len() implies offered[i]
                                < timeline.len() && timeline[offered[i] as int] is Choice by {
                                assert(positions[i] == offered[i] as int);
                            }
                        }
                        let n: usize = offered.len();
                        let mut i: usize = 0;
                        while i < n
                            invariant
                                n == offered.len(),
                                i <= n,
                                found.len() == i,
                                *self == *old(self),
                                context == self.context,
                                condition matches Some(text) ==> context.guard(text@) == Ok::<
                                    bool,
                                    ServerError,
                                >(true) && guard == Some(true),
                                condition is None ==> guard is None,
                                timeline@[cursor as int] == (Statement::Dialogue {
                                    speaker: timeline@[cursor as int]->speaker,
                                    text: timeline@[cursor as int]->Dialogue_text,
                                    condition: *condition,
                                }),
                                choice_findings(timeline@, positions, context, i as int) == Ok::<
                                    Seq<Option<bool>>,
                                    ServerError,
                                >(found@),
                                forall|k: int|
                                    0 <= k < offered.len() ==> timeline[offered[k] as int] is Choice,
                                self.run.paired(),
                                before == self.run@,
                                before.valid(scripts),
                                scripts == self.registry.scripts(),
                                positions == as_positions(offered@),
                                offered_choices(timeline@, cursor as int) == Some(positions),
                                0 <= place < scripts.len(),
                                scripts[place as int] == timeline@,
                                timeline@[cursor as int] is Dialogue,
                                cursor < timeline.len(),
                                !(before.phase is AwaitingChoice),
                                before.stack.len() > 0,
                                before.stack.last() == (Frame {
                                    timeline: place as int,
                                    cursor: cursor as int,
                                }),
                                forall|k: int| 0 <= k < offered.len() ==> offered[k] < timeline.len(),
                                forall|k: int|
                                    0 <= k < i && timeline[positions[k]].guard() is None ==> (
                                    #[trigger] found[k]) is None,
                            decreases n - i,
                        {
                            let at: usize = offered[i];
                            assert(positions[i as int] == at);
                            match &timeline[at] {
                                Statement::Choice { condition: Some(text), .. } => {
                                    match guard_holds(&self.context, text.as_str()) {
                                        Ok(value) => {
                                            found.push(Some(value));
                                        },
                                        Err(error) => {
                                            proof {
                                                assert(evaluates(scripts, before));
                                                lemma_first_failure_stays(
                                                    timeline@,
                                                    positions,
                                                    context,
                                                    i + 1,
                                                    n as int,
                                                );
                                            }
                                            return Err(error);
                                        },
                                    }
                                },
                                _ => {
                                    found.push(None);
                                },
                            }
                            i = i + 1;
                        }
                    }
                    let outcome = outcome_from(guard, &found);
                    proof {
                        if shown {
                            assert(outcome@ matches OutcomeView::Shown(flags) && flags_fit(
                                timeline@,
                                positions,
                                flags,
                            ));
                        }
                    }
                    outcome
                },
            },
            _ => Outcome::Nothing,
        };
        assert(!(step(names, scripts, before, outcome@).result matches Err(
            ServerError::UnfitOutcome,
        )));
        self.advance(outcome)
    }

    /// Selects the listed choice `index` of the dialogue last shown.
    pub fn select(&mut self, index: usize) -> (r: Result<(), ServerError>)
        ensures
            final(self).session().valid(final(self).registry().scripts()),
            final(self).registry() == old(self).registry(),
            final(self).context() == old(self).context(),
            select(old(self).session(), index as int) == (Selection {
                session: final(self).session(),
                result: r,
            }),
    {
        proof {
            use_type_invariant(&*self);
        }
        if let Phase::AwaitingChoice = self.run.phase {
        } else {
            return Err(ServerError::NoChoicePending);
        }
        if index >= self.run.offered.len() {
            return Err(ServerError::InvalidChoiceIndex);
        }
        if self.run.suppressed[index] {
            return Err(ServerError::InvalidChoiceIndex);
        }
        proof {
            self.registry.lemma_countable();
            assert(self.run@.offered[index as int] == self.run.offered[index as int]);
        }
        let target: usize = self.run.offered[index] + 1;
        let mut run = Run::ended();
        std::mem::swap(&mut run, &mut self.run);
        run.move_to(target);
        self.run = run;
        Ok(())
    }
}

} // verus!
