use nobela::balance::{is_balanced, is_well_nested};
use nobela::flatten::flatten;
use nobela::registry::Registry;
use nobela::scope::{collect_choices, find_choice_end, find_dialogue_end};
use nobela::statement::{Nested, Statement};

fn dialogue(text: &str) -> Statement {
    Statement::Dialogue { speaker: None, text: text.to_string(), condition: None }
}

fn choice(text: &str) -> Statement {
    Statement::Choice { text: text.to_string(), condition: None }
}

fn sample() -> Vec<Statement> {
    vec![
        dialogue("A"),                                            // 0
        choice("X"),                                              // 1
        dialogue("t1"),                                           // 2
        choice("deep"),                                           // 3
        Statement::EndChoice,                                     // 4
        Statement::EndDialogue,                                   // 5
        Statement::EndChoice,                                     // 6
        Statement::Jump { target: "b".to_string() },              // 7
        choice("Y"),                                              // 8
        Statement::EndChoice,                                     // 9
        Statement::EndDialogue,                                   // 10
        dialogue("B"),                                            // 11
        Statement::EndDialogue,                                   // 12
    ]
}

#[test]
fn dialogue_end_is_the_matching_terminator() {
    let s = sample();
    assert_eq!(find_dialogue_end(&s, 0), Some(10));
    assert_eq!(find_dialogue_end(&s, 2), Some(5));
    assert_eq!(find_dialogue_end(&s, 11), Some(12));
}

#[test]
fn choice_end_is_the_matching_terminator() {
    let s = sample();
    assert_eq!(find_choice_end(&s, 1), Some(6));
    assert_eq!(find_choice_end(&s, 3), Some(4));
    assert_eq!(find_choice_end(&s, 8), Some(9));
}

#[test]
fn scans_from_the_last_position_or_beyond_find_nothing() {
    let s = sample();
    assert_eq!(find_dialogue_end(&s, 12), None);
    assert_eq!(find_dialogue_end(&s, 13), None);
    assert_eq!(find_dialogue_end(&s, usize::MAX), None);
    assert_eq!(find_choice_end(&s, usize::MAX), None);
    assert_eq!(collect_choices(&s, usize::MAX), None);
    assert_eq!(find_dialogue_end(&Vec::new(), 0), None);
}

#[test]
fn scans_without_terminator_find_nothing() {
    let s = vec![dialogue("A"), dialogue("B"), Statement::EndDialogue];
    assert_eq!(find_dialogue_end(&s, 0), None);
    assert_eq!(collect_choices(&s, 0), None);
    let c = vec![choice("X"), choice("Y"), Statement::EndChoice];
    assert_eq!(find_choice_end(&c, 0), None);
}

#[test]
fn choice_scan_refuses_a_terminator_of_the_other_kind() {
    let s = vec![choice("X"), Statement::EndDialogue, Statement::EndChoice];
    assert_eq!(find_choice_end(&s, 0), None);
    let nested = vec![
        choice("X"),
        dialogue("d"),
        Statement::EndDialogue,
        Statement::EndChoice,
    ];
    assert_eq!(find_choice_end(&nested, 0), Some(3));
}

#[test]
fn collected_choices_are_the_immediate_ones_in_order() {
    let s = sample();
    assert_eq!(collect_choices(&s, 0), Some(vec![1, 8]));
    assert_eq!(collect_choices(&s, 2), Some(vec![3]));
    assert_eq!(collect_choices(&s, 11), Some(vec![]));
}

#[test]
fn balance_of_sequences() {
    assert!(is_balanced(&sample()));
    assert!(is_balanced(&Vec::new()));
    assert!(is_balanced(&vec![Statement::Jump { target: "x".to_string() }]));
    assert!(!is_balanced(&vec![dialogue("A")]));
    assert!(!is_balanced(&vec![Statement::EndDialogue]));
    assert!(!is_balanced(&vec![Statement::EndChoice, choice("X")]));
    assert!(!is_balanced(&vec![dialogue("A"), Statement::EndChoice]));
    assert!(!is_balanced(&vec![
        dialogue("A"),
        choice("X"),
        Statement::EndDialogue,
        Statement::EndChoice,
    ]));
}

fn tree() -> Vec<Nested> {
    vec![
        Nested::Dialogue {
            speaker: Some("Ann".to_string()),
            text: "A".to_string(),
            condition: Some("seen".to_string()),
            children: vec![
                Nested::Choice {
                    text: "X".to_string(),
                    condition: None,
                    children: vec![Nested::Dialogue {
                        speaker: None,
                        text: "t1".to_string(),
                        condition: None,
                        children: vec![],
                    }],
                },
                Nested::Choice {
                    text: "Y".to_string(),
                    condition: Some("false".to_string()),
                    children: vec![
                        Nested::Assign { variable: "v".to_string(), expression: "1".to_string() },
                        Nested::Jump { target: "b".to_string() },
                    ],
                },
            ],
        },
        Nested::Jump { target: "end".to_string() },
    ]
}

#[test]
fn flatten_is_depth_first_with_terminators() {
    let expected = vec![
        Statement::Dialogue {
            speaker: Some("Ann".to_string()),
            text: "A".to_string(),
            condition: Some("seen".to_string()),
        },
        choice("X"),
        dialogue("t1"),
        Statement::EndDialogue,
        Statement::EndChoice,
        Statement::Choice { text: "Y".to_string(), condition: Some("false".to_string()) },
        Statement::Assign { variable: "v".to_string(), expression: "1".to_string() },
        Statement::Jump { target: "b".to_string() },
        Statement::EndChoice,
        Statement::EndDialogue,
        Statement::Jump { target: "end".to_string() },
    ];
    assert_eq!(flatten(&tree()), expected);
}

#[test]
fn flatten_of_nothing_is_nothing() {
    assert_eq!(flatten(&Vec::new()), Vec::new());
}

#[test]
fn flatten_keeps_empty_scopes() {
    let nodes = vec![Nested::Choice { text: "X".to_string(), condition: None, children: vec![] }];
    assert_eq!(flatten(&nodes), vec![choice("X"), Statement::EndChoice]);
}

#[test]
fn flattened_tree_is_balanced() {
    assert!(is_balanced(&flatten(&tree())));
}

#[test]
fn statement_clone_is_equal() {
    for statement in sample() {
        assert_eq!(statement.clone(), statement);
    }
}

#[test]
fn registry_finds_by_name() {
    let mut registry = Registry::new();
    assert_eq!(registry.len(), 0);
    assert_eq!(registry.find("a"), None);
    registry.insert("a".to_string(), vec![dialogue("1")]);
    registry.insert("b".to_string(), vec![dialogue("2")]);
    assert_eq!(registry.len(), 2);
    assert_eq!(registry.find("a"), Some(0));
    assert_eq!(registry.find("b"), Some(1));
    assert_eq!(registry.find("c"), None);
    assert_eq!(registry.get("b"), Some(&vec![dialogue("2")]));
    assert_eq!(registry.get("c"), None);
    assert_eq!(registry.name(1), Some(&"b".to_string()));
    assert_eq!(registry.name(2), None);
    assert_eq!(registry.statements(0), Some(&vec![dialogue("1")]));
    assert_eq!(registry.statements(2), None);
}

#[test]
fn registry_insert_replaces_in_place() {
    let mut registry = Registry::new();
    registry.insert("a".to_string(), vec![dialogue("1")]);
    registry.insert("b".to_string(), vec![dialogue("2")]);
    registry.insert("a".to_string(), vec![dialogue("3")]);
    assert_eq!(registry.len(), 2);
    assert_eq!(registry.find("a"), Some(0));
    assert_eq!(registry.get("a"), Some(&vec![dialogue("3")]));
    assert_eq!(registry.get("b"), Some(&vec![dialogue("2")]));
}

#[test]
fn nesting_of_choices() {
    assert!(is_well_nested(&sample()));
    assert!(is_well_nested(&Vec::new()));
    assert!(!is_well_nested(&vec![choice("X"), Statement::EndChoice]));
    assert!(!is_well_nested(&vec![
        dialogue("A"),
        choice("X"),
        choice("Y"),
        Statement::EndChoice,
        Statement::EndChoice,
        Statement::EndDialogue,
    ]));
    assert!(!is_well_nested(&vec![dialogue("A"), choice("X"), Statement::EndChoice]));
    assert!(!is_well_nested(&vec![dialogue("A"), Statement::EndChoice, Statement::EndDialogue]));
}
