//! What steps and selections do to a session, stated for every session and
//! every outcome.

use vstd::prelude::*;
use crate::balance::{
    balanced, lemma_choice_scope_closes, lemma_dialogue_scope_closes, lemma_offered_are_children,
    lemma_scopes_nest, level, pairs_with, well_nested,
};
use crate::machine::{
    current, listed, select, some_visible, step, EventView, Frame, OutcomeView, ServerError,
    Session, Step,
};
use crate::registry::position_of;
use crate::scope::{
    choice_end, choices_before, dialogue_end, is_offered, lemma_choices_before,
};
use crate::server::follows;
use crate::statement::Statement;

verus! {

/// A dialogue lists its choices in source order, and a selection resumes in
/// the body of the choice listed at its index.
///
/// When a dialogue is shown, the event lists one entry for each choice that
/// the dialogue offers: in ascending order of position, each with the line
/// of the choice at that position and the flag that the outcome gave it.
/// The selection of an index is accepted exactly for the listed entries
/// that are not suppressed, and it puts the cursor right behind the opener
/// of the choice listed at that index, however many entries before it are
/// suppressed.
pub proof fn lemma_choices_keep_source_order(
    names: Seq<Seq<char>>,
    scripts: Seq<Seq<Statement>>,
    session: Session,
    flags: Seq<bool>,
)
    requires
        session.valid(scripts),
        current(scripts, session) matches Some(Statement::Dialogue { .. }),
        step(names, scripts, session, OutcomeView::Shown(flags)).result is Ok,
    ensures
        ({
            let top = session.stack.last();
            let timeline = scripts[top.timeline];
            let shown = step(names, scripts, session, OutcomeView::Shown(flags));
            let offered = shown.session.offered;
            &&& shown.result matches Ok(Some(EventView::Dialogue { choices, .. }))
                && choices == listed(timeline, offered, flags)
            &&& offered.len() == flags.len()
            &&& forall|i: int, j: int| 0 <= i < j < offered.len() ==> offered[i] < offered[j]
            &&& forall|i: int|
                0 <= i < offered.len() ==> top.cursor < #[trigger] offered[i] < timeline.len()
                    && timeline[offered[i]] is Choice
            &&& forall|at: int|
                is_offered(timeline, top.cursor, at) && at < dialogue_end(
                    timeline,
                    top.cursor,
                ).unwrap() ==> offered.contains(at)
            &&& forall|i: int|
                (#[trigger] select(shown.session, i)).result is Ok <==> 0 <= i < offered.len()
                    && !flags[i]
            &&& forall|i: int|
                0 <= i < offered.len() && !flags[i] ==> (#[trigger] select(
                    shown.session,
                    i,
                )).session == Session::idle_with(shown.session.stack_at(offered[i] + 1))
        }),
{
    let top = session.stack.last();
    let timeline = scripts[top.timeline];
    let end = dialogue_end(timeline, top.cursor).unwrap();
    lemma_choices_before(timeline, top.cursor, end);
    let shown = step(names, scripts, session, OutcomeView::Shown(flags));
    let offered = shown.session.offered;
    assert(offered == choices_before(timeline, top.cursor, end));
    assert forall|i: int| 0 <= i < offered.len() implies top.cursor < #[trigger] offered[i]
        < timeline.len() && timeline[offered[i]] is Choice by {
        assert(is_offered(timeline, top.cursor, offered[i]));
    }
    if !some_visible(flags) {
        assert forall|i: int| 0 <= i < offered.len() implies flags[i] by {}
    }
}

/// A dialogue whose guard fails is passed whole, in one step.
///
/// On a balanced timeline the step yields `Ignore` and leaves the cursor
/// right behind the `EndDialogue` that pairs with the dialogue, so that no
/// statement of the dialogue's scope is run.
pub proof fn lemma_hidden_dialogue_is_passed_whole(
    names: Seq<Seq<char>>,
    scripts: Seq<Seq<Statement>>,
    session: Session,
)
    requires
        session.valid(scripts),
        current(scripts, session) matches Some(Statement::Dialogue { condition: Some(_), .. }),
        balanced(scripts[session.stack.last().timeline]),
    ensures
        ({
            let top = session.stack.last();
            let timeline = scripts[top.timeline];
            &&& dialogue_end(timeline, top.cursor) matches Some(end) && pairs_with(
                timeline,
                top.cursor,
                end,
            ) && timeline[end] is EndDialogue && step(
                names,
                scripts,
                session,
                OutcomeView::Hidden,
            ) == (Step {
                session: Session::idle_with(session.stack_at(end + 1)),
                result: Ok(Some(EventView::Ignore)),
            })
        }),
{
    let top = session.stack.last();
    lemma_dialogue_scope_closes(scripts[top.timeline], top.cursor);
}

/// The cursor `at` lies in the scope of the choice opened at `open`: behind
/// the opener and not behind its terminator.
pub open spec fn in_choice(timeline: Seq<Statement>, open: int, at: int) -> bool {
    &&& 0 <= open < timeline.len()
    &&& timeline[open] is Choice
    &&& choice_end(timeline, open) matches Some(end) && open < at <= end
}

/// A selection enters the chosen choice and no other.
///
/// On a well nested timeline, after a dialogue was shown and one of its
/// listed choices selected, the cursor is in the scope of that choice; and
/// if it is in the scope of any other choice, then the dialogue itself
/// stands in that scope.
pub proof fn lemma_selection_enters_the_chosen_only(
    names: Seq<Seq<char>>,
    scripts: Seq<Seq<Statement>>,
    session: Session,
    flags: Seq<bool>,
    index: int,
    other: int,
)
    requires
        session.valid(scripts),
        current(scripts, session) matches Some(Statement::Dialogue { .. }),
        well_nested(scripts[session.stack.last().timeline]),
        step(names, scripts, session, OutcomeView::Shown(flags)).result is Ok,
        select(step(names, scripts, session, OutcomeView::Shown(flags)).session, index).result
            is Ok,
    ensures
        ({
            let top = session.stack.last();
            let timeline = scripts[top.timeline];
            let shown = step(names, scripts, session, OutcomeView::Shown(flags)).session;
            let chosen = shown.offered[index];
            let after = select(shown, index).session.stack.last();
            &&& after.timeline == top.timeline
            &&& in_choice(timeline, chosen, after.cursor)
            &&& other != chosen && in_choice(timeline, other, after.cursor) ==> in_choice(
                timeline,
                other,
                top.cursor,
            )
        }),
{
    let top = session.stack.last();
    let timeline = scripts[top.timeline];
    let shown = step(names, scripts, session, OutcomeView::Shown(flags)).session;
    let chosen = shown.offered[index];
    lemma_choices_keep_source_order(names, scripts, session, flags);
    lemma_dialogue_scope_closes(timeline, top.cursor);
    let end = dialogue_end(timeline, top.cursor).unwrap();
    lemma_choices_before(timeline, top.cursor, end);
    assert(is_offered(timeline, top.cursor, chosen));
    lemma_choice_scope_closes(timeline, chosen);
    lemma_offered_are_children(timeline, top.cursor, chosen);
    if other != chosen && in_choice(timeline, other, chosen + 1) {
        lemma_choice_scope_closes(timeline, other);
        if other > top.cursor {
            assert(level(timeline, other) > level(timeline, top.cursor));
            assert(level(timeline, chosen) > level(timeline, other));
        }
    }
}

/// No step enters the scope of a choice.
///
/// On a balanced timeline, a frame whose cursor is outside the scope of a
/// choice still has it outside after any step, whatever the outcome. Only a
/// selection puts the cursor into a choice; so once the body of a selected
/// choice is left, the choices beside it are passed without an event of
/// their own.
pub proof fn lemma_step_enters_no_choice(
    names: Seq<Seq<char>>,
    scripts: Seq<Seq<Statement>>,
    session: Session,
    outcome: OutcomeView,
    open: int,
)
    requires
        session.valid(scripts),
        session.stack.len() > 0,
        balanced(scripts[session.stack.last().timeline]),
        !in_choice(scripts[session.stack.last().timeline], open, session.stack.last().cursor),
        step(names, scripts, session, outcome).session.stack.len() >= session.stack.len(),
    ensures
        ({
            let after = step(names, scripts, session, outcome).session;
            let frame = after.stack[session.stack.len() - 1];
            &&& frame.timeline == session.stack.last().timeline
            &&& frame.cursor >= session.stack.last().cursor
            &&& !in_choice(scripts[frame.timeline], open, frame.cursor)
        }),
{
    let top = session.stack.last();
    let timeline = scripts[top.timeline];
    let cursor = top.cursor;
    let after = step(names, scripts, session, outcome).session;
    let frame = after.stack[session.stack.len() - 1];
    if after != session && cursor < timeline.len() && 0 <= open < timeline.len() && timeline[open]
        is Choice {
        lemma_choice_scope_closes(timeline, open);
        let end = choice_end(timeline, open).unwrap();
        if timeline[cursor] is Choice {
            lemma_choice_scope_closes(timeline, cursor);
            let skipped = choice_end(timeline, cursor).unwrap();
            assert(frame.cursor == skipped + 1);
            if cursor < open && open <= skipped {
                lemma_scopes_nest(timeline, cursor, skipped, open, end);
            }
        } else if timeline[cursor] is Dialogue && outcome is Hidden {
            lemma_dialogue_scope_closes(timeline, cursor);
            let skipped = dialogue_end(timeline, cursor).unwrap();
            assert(frame.cursor == skipped + 1);
            if cursor < open && open <= skipped {
                lemma_scopes_nest(timeline, cursor, skipped, open, end);
            }
        } else {
            assert(frame.cursor == cursor + 1);
        }
    }
}

/// The cursor of a frame never goes back.
///
/// After a step or a selection, a frame that is still there has its cursor
/// where it was or further on.
pub proof fn lemma_cursor_never_goes_back(
    names: Seq<Seq<char>>,
    scripts: Seq<Seq<Statement>>,
    session: Session,
    outcome: OutcomeView,
    index: int,
    frame: int,
)
    requires
        session.valid(scripts),
        0 <= frame < session.stack.len(),
    ensures
        frame < step(names, scripts, session, outcome).session.stack.len() ==> {
            let after = step(names, scripts, session, outcome).session.stack[frame];
            &&& after.timeline == session.stack[frame].timeline
            &&& after.cursor >= session.stack[frame].cursor
        },
        select(session, index).session.stack[frame].timeline == session.stack[frame].timeline,
        select(session, index).session.stack[frame].cursor >= session.stack[frame].cursor,
{
    let top = session.stack.last();
    let timeline = scripts[top.timeline];
    if 0 <= top.cursor < timeline.len() && timeline[top.cursor] is Dialogue && dialogue_end(
        timeline,
        top.cursor,
    ) is Some {
        lemma_choices_before(timeline, top.cursor, dialogue_end(timeline, top.cursor).unwrap());
    }
}

/// A jump returns behind itself.
///
/// A step at a jump to a known timeline yields `Ignore`, moves the cursor of
/// the running frame behind the jump and puts a frame for the target on top,
/// with its cursor at the start. Once the cursor of that frame is past the
/// end of the target, one step drops the frame, and the frames are those of
/// before the jump with the cursor behind it.
pub proof fn lemma_jump_returns_behind_itself(
    names: Seq<Seq<char>>,
    scripts: Seq<Seq<Statement>>,
    session: Session,
    place: int,
    through: int,
    outcome: OutcomeView,
)
    requires
        session.valid(scripts),
        current(scripts, session) matches Some(Statement::Jump { target }) && position_of(
            names,
            target@,
        ) == Some(place),
        through >= scripts[place].len(),
    ensures
        ({
            let cursor = session.stack.last().cursor;
            let behind = session.stack_at(cursor + 1);
            let entered = step(names, scripts, session, OutcomeView::Nothing);
            let exhausted = Session::idle_with(
                behind.push(Frame { timeline: place, cursor: through }),
            );
            &&& entered == (Step {
                session: Session::idle_with(behind.push(Frame { timeline: place, cursor: 0 })),
                result: Ok(Some(EventView::Ignore)),
            })
            &&& step(names, scripts, exhausted, outcome) == (Step {
                session: Session::idle_with(behind),
                result: Ok(Some(EventView::Ignore)),
            })
        }),
{
    let cursor = session.stack.last().cursor;
    let behind = session.stack_at(cursor + 1);
    let exhausted = Session::idle_with(behind.push(Frame { timeline: place, cursor: through }));
    assert(exhausted.stack.drop_last() =~= behind);
}

/// The frames under the running one are left alone.
///
/// A step changes at most the running frame, puts at most one frame on top
/// of it, or drops it; a selection changes the cursor of the running frame
/// only.
pub proof fn lemma_callers_are_kept(
    names: Seq<Seq<char>>,
    scripts: Seq<Seq<Statement>>,
    session: Session,
    outcome: OutcomeView,
    index: int,
    below: int,
)
    requires
        0 <= below < session.stack.len() - 1,
    ensures
        step(names, scripts, session, outcome).session.stack.len() >= session.stack.len() - 1,
        step(names, scripts, session, outcome).session.stack[below] == session.stack[below],
        select(session, index).session.stack.len() == session.stack.len(),
        select(session, index).session.stack[below] == session.stack[below],
{
}

/// While a choice is awaited, a step is refused and changes nothing, however
/// often it is asked for.
pub proof fn lemma_pending_choice_refuses_step(
    names: Seq<Seq<char>>,
    scripts: Seq<Seq<Statement>>,
    before: Session,
    after: Session,
    result: Result<Option<EventView>, ServerError>,
)
    requires
        before.phase is AwaitingChoice,
        follows(names, scripts, before, after, result),
    ensures
        after == before,
        result == Err::<Option<EventView>, ServerError>(ServerError::ChoicePending),
{
}

/// On a balanced timeline no step finds the statement stream malformed.
pub proof fn lemma_balanced_is_never_malformed(
    names: Seq<Seq<char>>,
    scripts: Seq<Seq<Statement>>,
    session: Session,
    outcome: OutcomeView,
)
    requires
        session.valid(scripts),
        session.stack.len() > 0,
        balanced(scripts[session.stack.last().timeline]),
    ensures
        !(step(names, scripts, session, outcome).result matches Err(
            ServerError::MalformedStatementStream,
        )),
{
    let top = session.stack.last();
    let timeline = scripts[top.timeline];
    if top.cursor < timeline.len() {
        if timeline[top.cursor] is Choice {
            lemma_choice_scope_closes(timeline, top.cursor);
        }
        if timeline[top.cursor] is Dialogue {
            lemma_dialogue_scope_closes(timeline, top.cursor);
        }
    }
}

/// A step leaves a valid session valid.
pub proof fn lemma_step_keeps_valid(
    names: Seq<Seq<char>>,
    scripts: Seq<Seq<Statement>>,
    session: Session,
    outcome: OutcomeView,
)
    requires
        session.valid(scripts),
        names.len() == scripts.len(),
    ensures
        step(names, scripts, session, outcome).session.valid(scripts),
        forall|index: int| (#[trigger] select(session, index)).session.valid(scripts),
{
    let top = session.stack.last();
    if session.stack.len() > 0 && 0 <= top.cursor < scripts[top.timeline].len() {
        let timeline = scripts[top.timeline];
        if timeline[top.cursor] is Dialogue && dialogue_end(timeline, top.cursor) is Some {
            lemma_choices_before(
                timeline,
                top.cursor,
                dialogue_end(timeline, top.cursor).unwrap(),
            );
        }
    }
}

/// One call of the driver: a step with the outcome that was evaluated for
/// it, or the selection of a listed choice.
pub enum Move {
    Step(OutcomeView),
    Select(int),
}

/// The session after one move.
pub open spec fn moved(
    names: Seq<Seq<char>>,
    scripts: Seq<Seq<Statement>>,
    session: Session,
    by: Move,
) -> Session {
    match by {
        Move::Step(outcome) => step(names, scripts, session, outcome).session,
        Move::Select(index) => select(session, index).session,
    }
}

/// The session after some moves in a row.
pub open spec fn played(
    names: Seq<Seq<char>>,
    scripts: Seq<Seq<Statement>>,
    session: Session,
    moves: Seq<Move>,
) -> Session
    decreases moves.len(),
{
    if moves.len() == 0 {
        session
    } else {
        moved(names, scripts, played(names, scripts, session, moves.drop_last()), moves.last())
    }
}

/// Moves leave a valid session valid.
pub proof fn lemma_played_keeps_valid(
    names: Seq<Seq<char>>,
    scripts: Seq<Seq<Statement>>,
    session: Session,
    moves: Seq<Move>,
)
    requires
        session.valid(scripts),
        names.len() == scripts.len(),
    ensures
        played(names, scripts, session, moves).valid(scripts),
    decreases moves.len(),
{
    if moves.len() > 0 {
        lemma_played_keeps_valid(names, scripts, session, moves.drop_last());
        let before = played(names, scripts, session, moves.drop_last());
        match moves.last() {
            Move::Step(outcome) => {
                lemma_step_keeps_valid(names, scripts, before, outcome);
            },
            Move::Select(index) => {
                lemma_step_keeps_valid(names, scripts, before, OutcomeView::Nothing);
            },
        }
    }
}

/// A frame that stays under the running one is not touched.
///
/// Whatever the moves, as long as at least one frame is above it before and
/// after each of them, a frame stays as it was.
pub proof fn lemma_played_keeps_callers(
    names: Seq<Seq<char>>,
    scripts: Seq<Seq<Statement>>,
    session: Session,
    moves: Seq<Move>,
    frame: int,
)
    requires
        0 <= frame,
        forall|k: int|
            0 <= k <= moves.len() ==> (#[trigger] played(
                names,
                scripts,
                session,
                moves.take(k),
            )).stack.len() > frame + 1,
    ensures
        played(names, scripts, session, moves).stack[frame] == session.stack[frame],
    decreases moves.len(),
{
    assert(moves.take(moves.len() as int) =~= moves);
    if moves.len() == 0 {
    } else {
        let fewer = moves.drop_last();
        assert forall|k: int| 0 <= k <= fewer.len() implies (#[trigger] played(
            names,
            scripts,
            session,
            fewer.take(k),
        )).stack.len() > frame + 1 by {
            assert(fewer.take(k) =~= moves.take(k));
        }
        lemma_played_keeps_callers(names, scripts, session, fewer, frame);
        let before = played(names, scripts, session, fewer);
        assert(fewer.take(fewer.len() as int) =~= fewer);
        assert(fewer =~= moves.take(moves.len() - 1));
        match moves.last() {
            Move::Step(outcome) => {
                lemma_callers_are_kept(names, scripts, before, outcome, 0, frame);
            },
            Move::Select(index) => {
                lemma_callers_are_kept(names, scripts, before, OutcomeView::Nothing, index, frame);
            },
        }
    }
}

/// What a frame has passed stays passed.
///
/// Whatever the moves, for as long as a frame is on the stack it runs the
/// same timeline and its cursor does not go back. So the statements of a
/// scope that was passed whole, such as that of a dialogue whose guard
/// failed, are not run later either.
pub proof fn lemma_played_never_goes_back(
    names: Seq<Seq<char>>,
    scripts: Seq<Seq<Statement>>,
    session: Session,
    moves: Seq<Move>,
    frame: int,
)
    requires
        session.valid(scripts),
        names.len() == scripts.len(),
        0 <= frame,
        forall|k: int|
            0 <= k <= moves.len() ==> (#[trigger] played(
                names,
                scripts,
                session,
                moves.take(k),
            )).stack.len() > frame,
    ensures
        played(names, scripts, session, moves).stack[frame].timeline
            == session.stack[frame].timeline,
        played(names, scripts, session, moves).stack[frame].cursor
            >= session.stack[frame].cursor,
    decreases moves.len(),
{
    assert(moves.take(moves.len() as int) =~= moves);
    if moves.len() > 0 {
        let fewer = moves.drop_last();
        assert forall|k: int| 0 <= k <= fewer.len() implies (#[trigger] played(
            names,
            scripts,
            session,
            fewer.take(k),
        )).stack.len() > frame by {
            assert(fewer.take(k) =~= moves.take(k));
        }
        lemma_played_never_goes_back(names, scripts, session, fewer, frame);
        lemma_played_keeps_valid(names, scripts, session, fewer);
        let before = played(names, scripts, session, fewer);
        assert(fewer.take(fewer.len() as int) =~= fewer);
        assert(fewer =~= moves.take(moves.len() - 1));
        match moves.last() {
            Move::Step(outcome) => {
                lemma_cursor_never_goes_back(names, scripts, before, outcome, 0, frame);
            },
            Move::Select(index) => {
                lemma_cursor_never_goes_back(
                    names,
                    scripts,
                    before,
                    OutcomeView::Nothing,
                    index,
                    frame,
                );
            },
        }
    }
}

/// A jump resumes its caller behind itself.
///
/// After the step at a jump, let the driver make any moves during which the
/// frame of the target, or frames above it, stay on the stack. When a step
/// then drops the frame of the target, the frames are those of before the
/// jump, with the cursor of the running one right behind the jump.
pub proof fn lemma_jump_resumes_caller(
    names: Seq<Seq<char>>,
    scripts: Seq<Seq<Statement>>,
    session: Session,
    moves: Seq<Move>,
    outcome: OutcomeView,
)
    requires
        session.valid(scripts),
        current(scripts, session) matches Some(Statement::Jump { .. }),
        step(names, scripts, session, OutcomeView::Nothing).result is Ok,
        forall|k: int|
            0 <= k <= moves.len() ==> (#[trigger] played(
                names,
                scripts,
                step(names, scripts, session, OutcomeView::Nothing).session,
                moves.take(k),
            )).stack.len() > session.stack.len(),
        step(
            names,
            scripts,
            played(
                names,
                scripts,
                step(names, scripts, session, OutcomeView::Nothing).session,
                moves,
            ),
            outcome,
        ).session.stack.len() == session.stack.len(),
    ensures
        step(
            names,
            scripts,
            played(
                names,
                scripts,
                step(names, scripts, session, OutcomeView::Nothing).session,
                moves,
            ),
            outcome,
        ).session.stack == session.stack_at(session.stack.last().cursor + 1),
{
    let depth = session.stack.len() as int;
    let behind = session.stack_at(session.stack.last().cursor + 1);
    let entered = step(names, scripts, session, OutcomeView::Nothing).session;
    let last = played(names, scripts, entered, moves);
    let back = step(names, scripts, last, outcome).session;
    assert(moves.take(moves.len() as int) =~= moves);
    assert(last.stack.len() > depth);
    assert(back.stack == last.stack.drop_last());
    assert forall|frame: int| 0 <= frame < depth implies back.stack[frame] == behind[frame] by {
        lemma_played_keeps_callers(names, scripts, entered, moves, frame);
    }
    assert(back.stack =~= behind);
}

/// Steps alone never bring a frame into the scope of a choice.
///
/// On a balanced timeline, if the cursor of a frame is outside the scope of
/// a choice, then after any number of steps, with whatever outcomes and
/// whatever jumps and returns above the frame, the cursor of the frame is
/// still outside, for as long as the frame is on the stack. So when the
/// body of a selected choice has been left, the choices beside it yield no
/// event of their own: each is passed by one step with `Ignore`.
pub proof fn lemma_steps_enter_no_choice(
    names: Seq<Seq<char>>,
    scripts: Seq<Seq<Statement>>,
    session: Session,
    outcomes: Seq<OutcomeView>,
    frame: int,
    open: int,
)
    requires
        session.valid(scripts),
        names.len() == scripts.len(),
        0 <= frame < session.stack.len(),
        balanced(scripts[session.stack[frame].timeline]),
        !in_choice(scripts[session.stack[frame].timeline], open, session.stack[frame].cursor),
        forall|k: int|
            0 <= k <= outcomes.len() ==> (#[trigger] played(
                names,
                scripts,
                session,
                steps(outcomes.take(k)),
            )).stack.len() > frame,
    ensures
        ({
            let after = played(names, scripts, session, steps(outcomes)).stack[frame];
            &&& after.timeline == session.stack[frame].timeline
            &&& after.cursor >= session.stack[frame].cursor
            &&& !in_choice(scripts[after.timeline], open, after.cursor)
        }),
    decreases outcomes.len(),
{
    assert(outcomes.take(outcomes.len() as int) =~= outcomes);
    if outcomes.len() > 0 {
        let fewer = outcomes.drop_last();
        assert(steps(outcomes).drop_last() =~= steps(fewer));
        assert forall|k: int| 0 <= k <= fewer.len() implies (#[trigger] played(
            names,
            scripts,
            session,
            steps(fewer.take(k)),
        )).stack.len() > frame by {
            assert(fewer.take(k) =~= outcomes.take(k));
        }
        lemma_steps_enter_no_choice(names, scripts, session, fewer, frame, open);
        lemma_played_keeps_valid(names, scripts, session, steps(fewer));
        let before = played(names, scripts, session, steps(fewer));
        assert(fewer.take(fewer.len() as int) =~= fewer);
        assert(fewer =~= outcomes.take(outcomes.len() - 1));
        assert(before.stack.len() > frame);
        if frame == before.stack.len() - 1 {
            lemma_step_enters_no_choice(names, scripts, before, outcomes.last(), open);
        } else {
            lemma_callers_are_kept(names, scripts, before, outcomes.last(), 0, frame);
        }
    }
}

/// The moves that are steps with the given outcomes.
pub open spec fn steps(outcomes: Seq<OutcomeView>) -> Seq<Move> {
    Seq::new(outcomes.len(), |i: int| Move::Step(outcomes[i]))
}

} // verus!
