use evalexpr::Value;
use nobela::context::{
    assigned_value, guard_holds, is_admitted, is_declared, is_scalar, Context, ContextError,
    ValueKind, MAX_EXPRESSION,
};
use nobela::front::{answered_or_first, spoken_line};
use nobela::machine::{
    outcome_from, visible_choices, Event, Outcome, Phase, ServerError,
};
use nobela::registry::Registry;
use nobela::server::Server;
use nobela::statement::Statement;

fn dialogue(text: &str) -> Statement {
    Statement::Dialogue { speaker: None, text: text.to_string(), condition: None }
}

fn spoken(speaker: &str, text: &str) -> Statement {
    Statement::Dialogue {
        speaker: Some(speaker.to_string()),
        text: text.to_string(),
        condition: None,
    }
}

fn guarded_dialogue(text: &str, condition: &str) -> Statement {
    Statement::Dialogue {
        speaker: None,
        text: text.to_string(),
        condition: Some(condition.to_string()),
    }
}

fn choice(text: &str) -> Statement {
    Statement::Choice { text: text.to_string(), condition: None }
}

fn guarded_choice(text: &str, condition: &str) -> Statement {
    Statement::Choice { text: text.to_string(), condition: Some(condition.to_string()) }
}

fn assign(variable: &str, expression: &str) -> Statement {
    Statement::Assign { variable: variable.to_string(), expression: expression.to_string() }
}

fn jump(target: &str) -> Statement {
    Statement::Jump { target: target.to_string() }
}

fn shown(text: &str, choices: Vec<(&str, bool)>) -> Event {
    Event::Dialogue {
        speaker: None,
        text: text.to_string(),
        choices: choices.into_iter().map(|(t, s)| (t.to_string(), s)).collect(),
    }
}

fn context(values: Vec<(&str, Value)>) -> Context {
    let mut context = Context::new();
    for (name, value) in values {
        context.set(name.to_string(), value).unwrap();
    }
    context
}

fn started(statements: Vec<Statement>, context: Context) -> Server {
    let mut registry = Registry::new();
    registry.insert("start".to_string(), statements);
    let mut server = Server::new(registry, context);
    server.start("start", 0).unwrap();
    server
}

fn three_choices(second_guard: &str) -> Vec<Statement> {
    vec![
        dialogue("pick"),
        choice("one"),
        dialogue("took one"),
        Statement::EndDialogue,
        Statement::EndChoice,
        guarded_choice("two", second_guard),
        dialogue("took two"),
        Statement::EndDialogue,
        Statement::EndChoice,
        choice("three"),
        dialogue("took three"),
        Statement::EndDialogue,
        Statement::EndChoice,
        Statement::EndDialogue,
        dialogue("after"),
        Statement::EndDialogue,
    ]
}

#[test]
fn new_server_has_no_session() {
    let mut server = Server::new(Registry::new(), Context::new());
    assert!(server.is_finished());
    assert_eq!(server.phase(), Phase::Idle);
    assert_eq!(server.next(), Ok(None));
    assert_eq!(server.select(0), Err(ServerError::NoChoicePending));
}

#[test]
fn start_of_unknown_timeline_is_refused() {
    let mut server = started(vec![dialogue("a"), Statement::EndDialogue], Context::new());
    assert_eq!(server.start("nowhere", 0), Err(ServerError::UnknownTimeline));
    assert_eq!(server.frames(), vec![("start".to_string(), 0)]);
    assert_eq!(server.next(), Ok(Some(shown("a", vec![]))));
}

#[test]
fn start_at_an_index_runs_from_there() {
    let mut registry = Registry::new();
    registry.insert(
        "start".to_string(),
        vec![dialogue("a"), Statement::EndDialogue, dialogue("b"), Statement::EndDialogue],
    );
    let mut server = Server::new(registry, Context::new());
    server.start("start", 2).unwrap();
    assert_eq!(server.next(), Ok(Some(shown("b", vec![]))));
    assert_eq!(server.next(), Ok(Some(Event::Ignore)));
    assert_eq!(server.next(), Ok(None));
    assert!(server.is_finished());
    assert_eq!(server.next(), Ok(None));
}

#[test]
fn start_past_the_end_ends_at_once() {
    let mut registry = Registry::new();
    registry.insert("start".to_string(), vec![dialogue("a"), Statement::EndDialogue]);
    let mut server = Server::new(registry, Context::new());
    server.start("start", 7).unwrap();
    assert_eq!(server.next(), Ok(None));
}

#[test]
fn speaker_is_reported() {
    let mut server = started(vec![spoken("Ann", "hi"), Statement::EndDialogue], Context::new());
    assert_eq!(
        server.next(),
        Ok(Some(Event::Dialogue {
            speaker: Some("Ann".to_string()),
            text: "hi".to_string(),
            choices: vec![],
        }))
    );
    assert_eq!(server.phase(), Phase::AwaitingAdvance);
}

#[test]
fn suppressed_choice_is_listed_in_place() {
    let mut server = started(three_choices("false"), Context::new());
    assert_eq!(
        server.next(),
        Ok(Some(shown("pick", vec![("one", false), ("two", true), ("three", false)])))
    );
    assert_eq!(server.phase(), Phase::AwaitingChoice);
    assert_eq!(server.select(2), Ok(()));
    assert_eq!(server.phase(), Phase::Idle);
    assert_eq!(server.next(), Ok(Some(shown("took three", vec![]))));
    assert_eq!(server.next(), Ok(Some(Event::Ignore)));
    assert_eq!(server.next(), Ok(Some(Event::Ignore)));
    assert_eq!(server.next(), Ok(Some(Event::Ignore)));
    assert_eq!(server.next(), Ok(Some(shown("after", vec![]))));
}

#[test]
fn selecting_a_suppressed_choice_is_refused() {
    let mut server = started(three_choices("false"), Context::new());
    server.next().unwrap();
    let before = server.frames();
    assert_eq!(server.select(1), Err(ServerError::InvalidChoiceIndex));
    assert_eq!(server.frames(), before);
    assert_eq!(server.phase(), Phase::AwaitingChoice);
    assert_eq!(server.select(0), Ok(()));
    assert_eq!(server.next(), Ok(Some(shown("took one", vec![]))));
}

#[test]
fn selecting_beyond_the_list_is_refused() {
    let mut server = started(three_choices("true"), Context::new());
    server.next().unwrap();
    assert_eq!(server.select(3), Err(ServerError::InvalidChoiceIndex));
    assert_eq!(server.select(usize::MAX), Err(ServerError::InvalidChoiceIndex));
    assert_eq!(server.phase(), Phase::AwaitingChoice);
}

#[test]
fn selecting_without_a_pending_choice_is_refused() {
    let mut server = started(three_choices("true"), Context::new());
    assert_eq!(server.select(0), Err(ServerError::NoChoicePending));
    server.next().unwrap();
    server.select(0).unwrap();
    assert_eq!(server.select(0), Err(ServerError::NoChoicePending));
}

#[test]
fn guard_reads_the_context() {
    let script = || vec![guarded_dialogue("secret", "key == \"open\""), Statement::EndDialogue];
    let mut open = started(script(), context(vec![("key", Value::from("open"))]));
    assert_eq!(open.next(), Ok(Some(shown("secret", vec![]))));
    let mut shut = started(script(), context(vec![("key", Value::from("shut"))]));
    assert_eq!(shut.next(), Ok(Some(Event::Ignore)));
    assert_eq!(shut.next(), Ok(None));
}

#[test]
fn all_choices_suppressed_awaits_advance_and_passes_them() {
    let script = vec![
        dialogue("pick"),
        guarded_choice("one", "false"),
        dialogue("took one"),
        Statement::EndDialogue,
        Statement::EndChoice,
        guarded_choice("two", "1 > 2"),
        dialogue("took two"),
        Statement::EndDialogue,
        Statement::EndChoice,
        Statement::EndDialogue,
    ];
    let mut server = started(script, Context::new());
    assert_eq!(server.next(), Ok(Some(shown("pick", vec![("one", true), ("two", true)]))));
    assert_eq!(server.phase(), Phase::AwaitingAdvance);
    assert_eq!(server.select(0), Err(ServerError::NoChoicePending));
    assert_eq!(server.next(), Ok(Some(Event::Ignore)));
    assert_eq!(server.frames(), vec![("start".to_string(), 5)]);
    assert_eq!(server.next(), Ok(Some(Event::Ignore)));
    assert_eq!(server.frames(), vec![("start".to_string(), 9)]);
    assert_eq!(server.next(), Ok(Some(Event::Ignore)));
    assert_eq!(server.next(), Ok(None));
}

#[test]
fn choices_of_nested_dialogues_are_not_listed() {
    let script = vec![
        dialogue("outer"),
        choice("a"),
        dialogue("inner"),
        choice("deep"),
        Statement::EndChoice,
        Statement::EndDialogue,
        Statement::EndChoice,
        choice("b"),
        Statement::EndChoice,
        Statement::EndDialogue,
    ];
    let mut server = started(script, Context::new());
    assert_eq!(server.next(), Ok(Some(shown("outer", vec![("a", false), ("b", false)]))));
    server.select(0).unwrap();
    assert_eq!(server.next(), Ok(Some(shown("inner", vec![("deep", false)]))));
    server.select(0).unwrap();
    assert_eq!(server.frames(), vec![("start".to_string(), 4)]);
}

#[test]
fn guard_on_unbound_variable_is_refused() {
    let mut server = started(
        vec![guarded_dialogue("secret", "missing"), Statement::EndDialogue],
        Context::new(),
    );
    assert_eq!(server.next(), Err(ServerError::UnknownVariable));
    assert_eq!(server.frames(), vec![("start".to_string(), 0)]);
    server.set_context(context(vec![("missing", Value::from(true))]));
    assert_eq!(server.next(), Ok(Some(shown("secret", vec![]))));
}

#[test]
fn choice_guard_on_unbound_variable_is_refused() {
    let script = vec![
        dialogue("pick"),
        guarded_choice("one", "missing"),
        Statement::EndChoice,
        Statement::EndDialogue,
    ];
    let mut server = started(script, Context::new());
    assert_eq!(server.next(), Err(ServerError::UnknownVariable));
    assert_eq!(server.phase(), Phase::Idle);
    assert_eq!(server.frames(), vec![("start".to_string(), 0)]);
}

#[test]
fn guard_that_is_no_boolean_is_refused() {
    let mut server = started(
        vec![guarded_dialogue("secret", "1 + 1"), Statement::EndDialogue],
        Context::new(),
    );
    assert_eq!(server.next(), Err(ServerError::InvalidExpression));
}

#[test]
fn guard_that_does_not_parse_is_refused() {
    let mut server = started(
        vec![guarded_dialogue("secret", "(true"), Statement::EndDialogue],
        Context::new(),
    );
    assert_eq!(server.next(), Err(ServerError::InvalidExpression));
    assert_eq!(server.frames(), vec![("start".to_string(), 0)]);
}

#[test]
fn choice_guards_are_not_evaluated_for_a_hidden_dialogue() {
    let script = vec![
        guarded_dialogue("pick", "false"),
        guarded_choice("one", "missing"),
        Statement::EndChoice,
        Statement::EndDialogue,
    ];
    let mut server = started(script, Context::new());
    assert_eq!(server.next(), Ok(Some(Event::Ignore)));
    assert_eq!(server.next(), Ok(None));
}

#[test]
fn assignment_reports_the_value_and_keeps_the_context() {
    let script = vec![assign("count", "count + 1"), assign("count", "count + 1")];
    let mut server = started(script, context(vec![("count", Value::from(1_i64))]));
    let set = Event::SetVariable { variable_name: "count".to_string(), new_value: Value::from(2_i64) };
    assert_eq!(server.next(), Ok(Some(set)));
    let again = Event::SetVariable { variable_name: "count".to_string(), new_value: Value::from(2_i64) };
    assert_eq!(server.next(), Ok(Some(again)));
    assert_eq!(server.next(), Ok(None));
}

#[test]
fn set_context_is_seen_by_the_next_step() {
    let script = vec![assign("count", "count + 1"), assign("count", "count * 10")];
    let mut server = started(script, context(vec![("count", Value::from(1_i64))]));
    server.next().unwrap();
    server.set_context(context(vec![("count", Value::from(2_i64))]));
    let set = Event::SetVariable { variable_name: "count".to_string(), new_value: Value::from(20_i64) };
    assert_eq!(server.next(), Ok(Some(set)));
}

#[test]
fn assignment_of_a_string() {
    let script = vec![assign("name", "\"Bo\" + \"b\"")];
    let mut server = started(script, context(vec![("name", Value::from(""))]));
    let set = Event::SetVariable { variable_name: "name".to_string(), new_value: Value::from("Bob") };
    assert_eq!(server.next(), Ok(Some(set)));
}

#[test]
fn assignment_to_undeclared_variable_is_refused() {
    let mut server = started(vec![assign("ghost", "1"), dialogue("a")], Context::new());
    assert_eq!(server.next(), Err(ServerError::UnknownVariable));
    assert_eq!(server.frames(), vec![("start".to_string(), 0)]);
    assert_eq!(server.next(), Err(ServerError::UnknownVariable));
    server.set_context(context(vec![("ghost", Value::from(0_i64))]));
    let set = Event::SetVariable { variable_name: "ghost".to_string(), new_value: Value::from(1_i64) };
    assert_eq!(server.next(), Ok(Some(set)));
}

#[test]
fn assignment_reading_an_unbound_variable_is_refused() {
    let mut server = started(vec![assign("a", "b + 1")], context(vec![("a", Value::from(0_i64))]));
    assert_eq!(server.next(), Err(ServerError::UnknownVariable));
}

#[test]
fn assignment_of_an_invalid_expression_is_refused() {
    let mut server = started(vec![assign("a", "1 +")], context(vec![("a", Value::from(0_i64))]));
    assert_eq!(server.next(), Err(ServerError::InvalidExpression));
    assert_eq!(server.frames(), vec![("start".to_string(), 0)]);
}

#[test]
fn jump_to_unknown_timeline_is_refused() {
    let mut server = started(vec![jump("nowhere"), dialogue("a")], Context::new());
    assert_eq!(server.next(), Err(ServerError::UnknownTimeline));
    assert_eq!(server.frames(), vec![("start".to_string(), 0)]);
    assert_eq!(server.current_statement(), Some(&jump("nowhere")));
}

#[test]
fn jump_pushes_a_frame_and_exhaustion_pops_it() {
    let mut registry = Registry::new();
    registry.insert("a".to_string(), vec![jump("b"), dialogue("back"), Statement::EndDialogue]);
    registry.insert("b".to_string(), vec![jump("c")]);
    registry.insert("c".to_string(), vec![]);
    let mut server = Server::new(registry, Context::new());
    server.start("a", 0).unwrap();
    assert_eq!(server.next(), Ok(Some(Event::Ignore)));
    assert_eq!(server.frames(), vec![("a".to_string(), 1), ("b".to_string(), 0)]);
    assert_eq!(server.next(), Ok(Some(Event::Ignore)));
    assert_eq!(
        server.frames(),
        vec![("a".to_string(), 1), ("b".to_string(), 1), ("c".to_string(), 0)]
    );
    assert_eq!(server.next(), Ok(Some(Event::Ignore)));
    assert_eq!(server.frames(), vec![("a".to_string(), 1), ("b".to_string(), 1)]);
    assert_eq!(server.next(), Ok(Some(Event::Ignore)));
    assert_eq!(server.frames(), vec![("a".to_string(), 1)]);
    assert_eq!(server.next(), Ok(Some(shown("back", vec![]))));
}

#[test]
fn dialogue_without_terminator_is_malformed() {
    let mut server = started(vec![dialogue("a"), choice("x"), Statement::EndChoice], Context::new());
    assert_eq!(server.next(), Err(ServerError::MalformedStatementStream));
    assert_eq!(server.frames(), vec![("start".to_string(), 0)]);
}

#[test]
fn malformed_dialogue_is_found_before_its_guard_is_evaluated() {
    let mut server = started(vec![guarded_dialogue("a", "missing")], Context::new());
    assert_eq!(server.next(), Err(ServerError::MalformedStatementStream));
}

#[test]
fn choice_without_terminator_is_malformed() {
    let mut server = started(vec![choice("x"), dialogue("a"), Statement::EndDialogue], Context::new());
    assert_eq!(server.next(), Err(ServerError::MalformedStatementStream));
}

#[test]
fn choice_closed_by_a_dialogue_terminator_is_malformed() {
    let mut server = started(vec![choice("x"), Statement::EndDialogue, Statement::EndChoice], Context::new());
    assert_eq!(server.next(), Err(ServerError::MalformedStatementStream));
}

#[test]
fn advance_takes_the_outcome_as_given() {
    let mut server = started(three_choices("missing"), Context::new());
    assert_eq!(
        server.advance(Outcome::Shown(vec![false, true, false])),
        Ok(Some(shown("pick", vec![("one", false), ("two", true), ("three", false)])))
    );
    assert_eq!(server.phase(), Phase::AwaitingChoice);
    assert_eq!(server.advance(Outcome::Nothing), Err(ServerError::ChoicePending));
}

#[test]
fn advance_refuses_an_outcome_that_does_not_fit() {
    let mut server = started(three_choices("missing"), Context::new());
    assert_eq!(server.advance(Outcome::Nothing), Err(ServerError::UnfitOutcome));
    assert_eq!(server.advance(Outcome::Hidden), Err(ServerError::UnfitOutcome));
    assert_eq!(server.advance(Outcome::Shown(vec![false, true])), Err(ServerError::UnfitOutcome));
    assert_eq!(
        server.advance(Outcome::Shown(vec![true, false, false])),
        Err(ServerError::UnfitOutcome)
    );
    assert_eq!(
        server.advance(Outcome::Assigned(Value::from(1_i64))),
        Err(ServerError::UnfitOutcome)
    );
    assert_eq!(server.frames(), vec![("start".to_string(), 0)]);
    assert_eq!(server.phase(), Phase::Idle);
}

#[test]
fn advance_hides_a_guarded_dialogue() {
    let script = vec![
        guarded_dialogue("secret", "whatever"),
        dialogue("inner"),
        Statement::EndDialogue,
        Statement::EndDialogue,
        dialogue("after"),
        Statement::EndDialogue,
    ];
    let mut server = started(script, Context::new());
    assert_eq!(server.advance(Outcome::Hidden), Ok(Some(Event::Ignore)));
    assert_eq!(server.frames(), vec![("start".to_string(), 4)]);
}

#[test]
fn advance_reports_the_assigned_value() {
    let mut server = started(vec![assign("a", "ignored")], Context::new());
    let set = Event::SetVariable { variable_name: "a".to_string(), new_value: Value::from(7_i64) };
    assert_eq!(server.advance(Outcome::Assigned(Value::from(7_i64))), Ok(Some(set)));
    assert_eq!(server.frames(), vec![("start".to_string(), 1)]);
}

#[test]
fn frames_can_be_resumed() {
    let mut registry = Registry::new();
    registry.insert("a".to_string(), vec![jump("b"), dialogue("back"), Statement::EndDialogue]);
    registry.insert("b".to_string(), vec![dialogue("in b"), Statement::EndDialogue]);
    let mut server = Server::new(registry, Context::new());
    let saved = vec![("a".to_string(), 1), ("b".to_string(), 1)];
    assert_eq!(server.resume(&saved), Ok(()));
    assert_eq!(server.frames(), saved);
    assert_eq!(server.next(), Ok(Some(Event::Ignore)));
    assert_eq!(server.next(), Ok(Some(Event::Ignore)));
    assert_eq!(server.next(), Ok(Some(shown("back", vec![]))));
}

#[test]
fn resume_with_unknown_timeline_is_refused() {
    let mut server = started(vec![dialogue("a"), Statement::EndDialogue], Context::new());
    server.next().unwrap();
    let saved = vec![("start".to_string(), 0), ("nowhere".to_string(), 0)];
    assert_eq!(server.resume(&saved), Err(ServerError::UnknownTimeline));
    assert_eq!(server.frames(), vec![("start".to_string(), 1)]);
}

#[test]
fn current_statement_follows_the_cursor() {
    let mut server = started(three_choices("true"), Context::new());
    assert_eq!(server.current_statement(), Some(&dialogue("pick")));
    server.next().unwrap();
    assert_eq!(server.current_statement(), None);
    server.select(1).unwrap();
    assert_eq!(server.current_statement(), Some(&dialogue("took two")));
}

#[test]
fn context_tells_what_is_declared() {
    let context = context(vec![("key", Value::from("open")), ("count", Value::from(3_i64))]);
    assert!(is_declared(&context, "key"));
    assert!(is_declared(&context, "count"));
    assert!(!is_declared(&context, "missing"));
    assert!(!is_declared(&context, ""));
    assert!(!is_declared(&Context::new(), "key"));
}

#[test]
fn guards_are_evaluated_in_the_context() {
    let context = context(vec![("key", Value::from("open")), ("count", Value::from(3_i64))]);
    assert_eq!(guard_holds(&context, "true"), Ok(true));
    assert_eq!(guard_holds(&context, "key == \"open\" && count > 2"), Ok(true));
    assert_eq!(guard_holds(&context, "count > 3"), Ok(false));
    assert_eq!(guard_holds(&context, "missing"), Err(ServerError::UnknownVariable));
    assert_eq!(guard_holds(&context, "count"), Err(ServerError::InvalidExpression));
    assert_eq!(guard_holds(&context, ""), Err(ServerError::InvalidExpression));
    assert_eq!(guard_holds(&context, "count >"), Err(ServerError::InvalidExpression));
}

#[test]
fn assigned_values_are_evaluated_in_the_context() {
    let context = context(vec![("key", Value::from("open")), ("count", Value::from(3_i64))]);
    assert_eq!(assigned_value(&context, "count", "count * 2 + 1"), Ok(Value::from(7_i64)));
    assert_eq!(assigned_value(&context, "key", "key + \"ed\""), Ok(Value::from("opened")));
    assert_eq!(assigned_value(&context, "count", "count > 2"), Ok(Value::from(true)));
    assert_eq!(assigned_value(&context, "missing", "1"), Err(ServerError::UnknownVariable));
    assert_eq!(assigned_value(&context, "count", "missing + 1"), Err(ServerError::UnknownVariable));
    assert_eq!(assigned_value(&context, "count", "1 / 0"), Err(ServerError::InvalidExpression));
    assert_eq!(assigned_value(&context, "count", "(1"), Err(ServerError::InvalidExpression));
}

#[test]
fn cursor_only_moves_forward() {
    let mut server = started(three_choices("false"), Context::new());
    let mut last = 0;
    loop {
        if server.phase() == Phase::AwaitingChoice {
            server.select(0).unwrap();
        } else if server.next().unwrap().is_none() {
            break;
        }
        if let Some((_, cursor)) = server.frames().pop() {
            assert!(cursor >= last);
            last = cursor;
        }
    }
    assert_eq!(last, 16);
}

#[test]
fn context_sets_and_gets() {
    let mut context = Context::new();
    assert_eq!(context.get("a"), None);
    assert_eq!(context.set("a".to_string(), Value::from(1_i64)), Ok(()));
    assert_eq!(context.set("b".to_string(), Value::from("x")), Ok(()));
    assert_eq!(context.set("c".to_string(), Value::from(true)), Ok(()));
    assert_eq!(context.set("d".to_string(), Value::from(1.5)), Ok(()));
    assert_eq!(context.get("a"), Some(Value::from(1_i64)));
    assert_eq!(context.get("b"), Some(Value::from("x")));
    assert_eq!(context.get("c"), Some(Value::from(true)));
    assert_eq!(context.get("d"), Some(Value::from(1.5)));
    assert_eq!(context.set("a".to_string(), Value::from(2_i64)), Ok(()));
    assert_eq!(context.get("a"), Some(Value::from(2_i64)));
}

#[test]
fn context_refuses_a_value_of_another_kind() {
    let mut context = context(vec![("a", Value::from(1_i64))]);
    assert_eq!(context.set("a".to_string(), Value::from("one")), Err(ContextError::Mismatch));
    assert_eq!(context.get("a"), Some(Value::from(1_i64)));
}

#[test]
fn context_refuses_tuples_and_the_empty_value() {
    let mut context = Context::new();
    let tuple = Value::Tuple(vec![Value::from(1_i64), Value::from(2_i64)]);
    assert_eq!(context.set("a".to_string(), tuple), Err(ContextError::Unsupported));
    assert_eq!(context.set("a".to_string(), Value::Empty), Err(ContextError::Unsupported));
    assert_eq!(context.get("a"), None);
    assert!(!is_declared(&context, "a"));
}

#[test]
fn context_clone_holds_the_same_variables() {
    let first = context(vec![("a", Value::from(1_i64))]);
    let mut second = first.clone();
    assert_eq!(second.get("a"), Some(Value::from(1_i64)));
    second.set("b".to_string(), Value::from(2_i64)).unwrap();
    assert_eq!(first.get("b"), None);
}

#[test]
fn scalar_kinds() {
    assert!(is_scalar(ValueKind::Text));
    assert!(is_scalar(ValueKind::Integer));
    assert!(is_scalar(ValueKind::Decimal));
    assert!(is_scalar(ValueKind::Boolean));
    assert!(!is_scalar(ValueKind::Tuple));
    assert!(!is_scalar(ValueKind::Empty));
}

#[test]
fn built_in_functions_are_switched_off() {
    let context = context(vec![("name", Value::from("\u{e9}t\u{e9}"))]);
    assert_eq!(
        guard_holds(&context, "str::substring(name, 1) == \"t\""),
        Err(ServerError::InvalidExpression)
    );
    assert_eq!(guard_holds(&context, "len(name) == 2"), Err(ServerError::InvalidExpression));
    assert_eq!(guard_holds(&context, "shl(1, 64) == 0"), Err(ServerError::InvalidExpression));
    assert_eq!(
        assigned_value(&context, "name", "math::abs(-9223372036854775807 - 1)"),
        Err(ServerError::InvalidExpression)
    );
}

#[test]
fn expression_over_the_limit_is_refused() {
    let context = context(vec![("a", Value::from(true))]);
    let mut long = String::from("a");
    while long.chars().count() <= MAX_EXPRESSION {
        long.push_str(" && a");
    }
    assert_eq!(guard_holds(&context, &long), Err(ServerError::InvalidExpression));
    assert_eq!(assigned_value(&context, "a", &long), Err(ServerError::InvalidExpression));
    assert_eq!(assigned_value(&context, "missing", &long), Err(ServerError::UnknownVariable));
}

#[test]
fn expression_at_the_limit_is_evaluated_however_deep() {
    let context = context(vec![("a", Value::from(true)), ("n", Value::from(1_i64))]);
    let negations = "!".repeat(MAX_EXPRESSION - 1) + "a";
    assert_eq!(negations.chars().count(), MAX_EXPRESSION);
    assert_eq!(guard_holds(&context, &negations), Ok(false));
    let braces = "(".repeat(MAX_EXPRESSION / 2 - 1) + "a" + &")".repeat(MAX_EXPRESSION / 2 - 1);
    assert_eq!(guard_holds(&context, &braces), Ok(true));
    let minus = "-".repeat(MAX_EXPRESSION - 2) + "n";
    assert_eq!(assigned_value(&context, "n", &minus), Ok(Value::from(1_i64)));
    let tuples = "(".repeat(MAX_EXPRESSION / 4 - 1) + "1" + &",1)".repeat(MAX_EXPRESSION / 4 - 1);
    assert!(tuples.chars().count() <= MAX_EXPRESSION);
    assert!(assigned_value(&context, "n", &tuples).is_ok());
}

#[test]
fn outcome_hides_exactly_on_a_false_guard() {
    assert!(matches!(outcome_from(Some(false), &vec![]), Outcome::Hidden));
    assert!(matches!(outcome_from(Some(false), &vec![Some(true)]), Outcome::Hidden));
    assert!(matches!(outcome_from(Some(true), &vec![]), Outcome::Shown(flags) if flags.is_empty()));
    assert!(matches!(outcome_from(None, &vec![]), Outcome::Shown(flags) if flags.is_empty()));
}

#[test]
fn outcome_suppresses_exactly_on_a_false_guard() {
    let found = vec![Some(true), Some(false), None, Some(false)];
    assert!(matches!(
        outcome_from(None, &found),
        Outcome::Shown(flags) if flags == vec![false, true, false, true]
    ));
    assert!(matches!(
        outcome_from(Some(true), &found),
        Outcome::Shown(flags) if flags == vec![false, true, false, true]
    ));
}

#[test]
fn dialogue_is_shown_exactly_if_its_guard_holds() {
    let script = |guard: &str| vec![guarded_dialogue("line", guard), Statement::EndDialogue];
    let mut shown_one = started(script("1 < 2"), Context::new());
    assert_eq!(shown_one.next(), Ok(Some(shown("line", vec![]))));
    let mut hidden_one = started(script("2 < 1"), Context::new());
    assert_eq!(hidden_one.next(), Ok(Some(Event::Ignore)));
}

#[test]
fn choice_is_suppressed_exactly_if_its_guard_fails() {
    let script = vec![
        dialogue("pick"),
        guarded_choice("yes", "1 < 2"),
        Statement::EndChoice,
        guarded_choice("no", "2 < 1"),
        Statement::EndChoice,
        Statement::EndDialogue,
    ];
    let mut server = started(script, Context::new());
    assert_eq!(server.next(), Ok(Some(shown("pick", vec![("yes", false), ("no", true)]))));
}

#[test]
fn visible_choices_keep_their_listed_index() {
    let choices = vec![
        ("one".to_string(), true),
        ("two".to_string(), false),
        ("three".to_string(), true),
        ("four".to_string(), false),
    ];
    assert_eq!(
        visible_choices(&choices),
        (vec!["two".to_string(), "four".to_string()], vec![1, 3])
    );
    assert_eq!(visible_choices(&Vec::new()), (Vec::new(), Vec::new()));
    assert_eq!(
        visible_choices(&vec![("one".to_string(), true)]),
        (Vec::new(), Vec::new())
    );
}

#[test]
fn server_hands_out_its_context() {
    let mut server = started(vec![assign("count", "count + 1")], context(vec![("count", Value::from(1_i64))]));
    assert_eq!(server.current_context().get("count"), Some(Value::from(1_i64)));
    let mut updated = server.current_context().clone();
    updated.set("count".to_string(), Value::from(5_i64)).unwrap();
    server.set_context(updated);
    assert_eq!(server.current_context().get("count"), Some(Value::from(5_i64)));
    let set = Event::SetVariable { variable_name: "count".to_string(), new_value: Value::from(6_i64) };
    assert_eq!(server.next(), Ok(Some(set)));
}

fn step_of(state: &mut u64) -> usize {
    *state = state.wrapping_mul(6364136223846793005).wrapping_add(1442695040888963407);
    (*state >> 33) as usize
}

#[test]
fn any_mix_of_tokens_is_evaluated_or_refused() {
    let context = context(vec![
        ("a", Value::from(1_i64)),
        ("b", Value::from(true)),
        ("s", Value::from("x")),
        ("f", Value::from(0.5)),
    ]);
    let pieces = [
        "a", "b", "s", "f", "c", "1", "0", "2.5", "true", "false", "\"t\"", "\"", "(", ")", ",",
        ";", "+", "-", "*", "/", "%", "^", "==", "!=", "<", ">", "<=", ">=", "&&", "||", "!", "=",
        "+=", "&&=", " ", "9223372036854775807", "0x", "1e", "min", "len", "str::substring",
        "shl", "math::abs", "//", "/*", "*/", "\\", "&", "|", "\u{e9}",
    ];
    let mut state: u64 = 0x2545_F491_4F6C_DD1D;
    for _ in 0..30000 {
        let mut text = String::new();
        for _ in 0..step_of(&mut state) % 14 {
            text.push_str(pieces[step_of(&mut state) % pieces.len()]);
        }
        let guard = guard_holds(&context, &text);
        assert!(matches!(
            guard,
            Ok(_) | Err(ServerError::UnknownVariable) | Err(ServerError::InvalidExpression)
        ));
        let value = assigned_value(&context, "a", &text);
        assert!(matches!(
            value,
            Ok(_) | Err(ServerError::UnknownVariable) | Err(ServerError::InvalidExpression)
        ));
    }
}

#[test]
fn power_operator_is_not_admitted() {
    let context = context(vec![("a", Value::from(2_i64)), ("s", Value::from(""))]);
    assert!(!is_admitted("a ^ 2"));
    assert!(!is_admitted("\"^\""));
    assert!(is_admitted("a * a"));
    assert!(is_admitted(""));
    assert_eq!(guard_holds(&context, "a ^ 2 == 4"), Err(ServerError::InvalidExpression));
    assert_eq!(assigned_value(&context, "a", "a ^ 2"), Err(ServerError::InvalidExpression));
    assert_eq!(assigned_value(&context, "s", "\"^\""), Err(ServerError::InvalidExpression));
    assert_eq!(assigned_value(&context, "a", "a * a"), Ok(Value::from(4_i64)));
}

#[test]
fn admitted_goes_by_characters() {
    let at_limit = "\u{e9}".repeat(MAX_EXPRESSION);
    assert!(is_admitted(&at_limit));
    let over = "\u{e9}".repeat(MAX_EXPRESSION + 1);
    assert!(!is_admitted(&over));
}

#[test]
fn set_succeeds_exactly_for_a_scalar_of_the_held_kind() {
    let mut context = Context::new();
    assert_eq!(context.set("a".to_string(), Value::from(1.5)), Ok(()));
    assert_eq!(context.set("a".to_string(), Value::from(2.5)), Ok(()));
    assert_eq!(context.set("a".to_string(), Value::from(2_i64)), Err(ContextError::Mismatch));
    assert_eq!(context.set("a".to_string(), Value::from(true)), Err(ContextError::Mismatch));
    assert_eq!(context.set("a".to_string(), Value::Empty), Err(ContextError::Unsupported));
    assert_eq!(
        context.set("a".to_string(), Value::Tuple(vec![])),
        Err(ContextError::Unsupported)
    );
    assert_eq!(context.get("a"), Some(Value::from(2.5)));
}

#[test]
fn prompt_without_answer_stands_for_the_first() {
    assert_eq!(answered_or_first(None), 0);
    assert_eq!(answered_or_first(Some(0)), 0);
    assert_eq!(answered_or_first(Some(3)), 3);
}

#[test]
fn line_starts_with_the_speaker_and_a_colon() {
    assert_eq!(spoken_line(&Some("Ann".to_string()), "hi"), "Ann: hi");
    assert_eq!(spoken_line(&None, "hi"), ": hi");
    assert_eq!(spoken_line(&Some(String::new()), ""), ": ");
}
