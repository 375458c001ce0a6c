use nobela::context::Context;
use nobela::machine::{Event, Phase, ServerError};
use nobela::registry::Registry;
use nobela::server::Server;
use nobela::statement::Statement;

fn dialogue(text: &str) -> Statement {
    Statement::Dialogue { speaker: None, text: text.to_string(), condition: None }
}

fn guarded_dialogue(text: &str, condition: &str) -> Statement {
    Statement::Dialogue {
        speaker: None,
        text: text.to_string(),
        condition: Some(condition.to_string()),
    }
}

fn choice(text: &str) -> Statement {
    Statement::Choice { text: text.to_string(), condition: None }
}

fn jump(target: &str) -> Statement {
    Statement::Jump { target: target.to_string() }
}

fn shown(text: &str, choices: Vec<(&str, bool)>) -> Event {
    Event::Dialogue {
        speaker: None,
        text: text.to_string(),
        choices: choices.into_iter().map(|(t, s)| (t.to_string(), s)).collect(),
    }
}

fn server_with(timelines: Vec<(&str, Vec<Statement>)>) -> Server {
    let mut registry = Registry::new();
    for (name, statements) in timelines {
        registry.insert(name.to_string(), statements);
    }
    Server::new(registry, Context::new())
}

/// Steps until an event other than `Ignore` comes, or the session ends.
fn next_shown(server: &mut Server) -> Option<Event> {
    loop {
        match server.next().unwrap() {
            Some(Event::Ignore) => continue,
            other => return other,
        }
    }
}

fn two_choices() -> Vec<Statement> {
    vec![
        dialogue("A"),
        choice("X"),
        dialogue("t1"),
        Statement::EndDialogue,
        Statement::EndChoice,
        choice("Y"),
        dialogue("t2"),
        Statement::EndDialogue,
        Statement::EndChoice,
        Statement::EndDialogue,
    ]
}

#[test]
fn first_choice_runs_its_body_and_skips_the_sibling() {
    let mut server = server_with(vec![("start", two_choices())]);
    server.start("start", 0).unwrap();
    assert_eq!(server.next(), Ok(Some(shown("A", vec![("X", false), ("Y", false)]))));
    assert_eq!(server.select(0), Ok(()));
    assert_eq!(server.next(), Ok(Some(shown("t1", vec![]))));
    assert_eq!(next_shown(&mut server), None);
}

#[test]
fn first_choice_yields_ignore_for_every_skipped_scope() {
    let mut server = server_with(vec![("start", two_choices())]);
    server.start("start", 0).unwrap();
    server.next().unwrap();
    server.select(0).unwrap();
    let mut events = Vec::new();
    while let Some(event) = server.next().unwrap() {
        events.push(event);
    }
    assert_eq!(
        events,
        vec![
            shown("t1", vec![]),
            Event::Ignore,
            Event::Ignore,
            Event::Ignore,
            Event::Ignore,
        ]
    );
}

#[test]
fn second_choice_runs_its_own_body() {
    let mut server = server_with(vec![("start", two_choices())]);
    server.start("start", 0).unwrap();
    server.next().unwrap();
    assert_eq!(server.select(1), Ok(()));
    assert_eq!(server.next(), Ok(Some(shown("t2", vec![]))));
    assert_eq!(next_shown(&mut server), None);
}

#[test]
fn hidden_dialogue_is_one_ignore() {
    let script = vec![
        guarded_dialogue("hidden", "false"),
        choice("never"),
        dialogue("inside"),
        Statement::EndDialogue,
        Statement::EndChoice,
        Statement::EndDialogue,
        dialogue("shown"),
        Statement::EndDialogue,
    ];
    let mut server = server_with(vec![("start", script)]);
    server.start("start", 0).unwrap();
    assert_eq!(server.next(), Ok(Some(Event::Ignore)));
    assert_eq!(server.next(), Ok(Some(shown("shown", vec![]))));
}

#[test]
fn jump_runs_the_target_and_returns_behind_itself() {
    let a = vec![
        dialogue("a1"),
        Statement::EndDialogue,
        jump("b"),
        dialogue("a2"),
        Statement::EndDialogue,
    ];
    let b = vec![dialogue("b1"), Statement::EndDialogue];
    let mut server = server_with(vec![("a", a), ("b", b)]);
    server.start("a", 0).unwrap();
    let mut events = Vec::new();
    while let Some(event) = server.next().unwrap() {
        events.push(event);
    }
    assert_eq!(
        events,
        vec![
            shown("a1", vec![]),
            Event::Ignore,
            Event::Ignore,
            shown("b1", vec![]),
            Event::Ignore,
            Event::Ignore,
            shown("a2", vec![]),
            Event::Ignore,
        ]
    );
    assert_eq!(server.next(), Ok(None));
}

#[test]
fn step_is_refused_while_a_choice_is_awaited() {
    let mut server = server_with(vec![("start", two_choices())]);
    server.start("start", 0).unwrap();
    server.next().unwrap();
    assert_eq!(server.phase(), Phase::AwaitingChoice);
    assert_eq!(server.next(), Err(ServerError::ChoicePending));
    assert_eq!(server.next(), Err(ServerError::ChoicePending));
    assert_eq!(server.select(0), Ok(()));
    assert_eq!(server.next(), Ok(Some(shown("t1", vec![]))));
}
