//! The vocabulary of script instructions, in its linear and its tree shape.

use vstd::prelude::*;

verus! {

/// One instruction of a flattened script.
///
/// `Dialogue` and `Choice` open a scope that the next unmatched
/// `EndDialogue` or `EndChoice` closes.
#[derive(Debug, PartialEq, Eq)]
pub enum Statement {
    /// A line to show. With a condition, the line and all of its scope are
    /// passed over unless the condition holds.
    Dialogue { speaker: Option<String>, text: String, condition: Option<String> },
    /// An answer that the enclosing dialogue offers; its scope is what
    /// follows when it is taken. With a condition, it is listed as
    /// suppressed unless the condition holds.
    Choice { text: String, condition: Option<String> },
    /// Closes the scope of the dialogue opened last.
    EndDialogue,
    /// Closes the scope of the choice opened last.
    EndChoice,
    /// Gives a declared variable the value of an expression.
    Assign { variable: String, expression: String },
    /// Runs the timeline called `target`, and goes on behind the jump when
    /// that timeline has ended.
    Jump { target: String },
}

/// One node of a script in tree form: a statement with the statements
/// nested under it.
#[derive(Debug, PartialEq, Eq)]
pub enum Nested {
    Dialogue {
        speaker: Option<String>,
        text: String,
        condition: Option<String>,
        children: Vec<Nested>,
    },
    Choice { text: String, condition: Option<String>, children: Vec<Nested> },
    Assign { variable: String, expression: String },
    Jump { target: String },
}

/// A copy of an optional string.
pub fn clone_optional(s: &Option<String>) -> (r: Option<String>)
    ensures
        r == *s,
{
    match s {
        Some(text) => Some(text.clone()),
        None => None,
    }
}

impl Clone for Statement {
    fn clone(&self) -> (r: Self)
        ensures
            r == *self,
    {
        match self {
            Statement::Dialogue { speaker, text, condition } => Statement::Dialogue {
                speaker: clone_optional(speaker),
                text: text.clone(),
                condition: clone_optional(condition),
            },
            Statement::Choice { text, condition } => Statement::Choice {
                text: text.clone(),
                condition: clone_optional(condition),
            },
            Statement::EndDialogue => Statement::EndDialogue,
            Statement::EndChoice => Statement::EndChoice,
            Statement::Assign { variable, expression } => Statement::Assign {
                variable: variable.clone(),
                expression: expression.clone(),
            },
            Statement::Jump { target } => Statement::Jump { target: target.clone() },
        }
    }
}

impl Statement {
    /// The statement opens a scope.
    pub open spec fn is_opener(self) -> bool {
        self is Dialogue || self is Choice
    }

    /// The statement closes a scope.
    pub open spec fn is_closer(self) -> bool {
        self is EndDialogue || self is EndChoice
    }

    /// What the statement adds to the number of open dialogue scopes.
    pub open spec fn dialogue_delta(self) -> int {
        if self is Dialogue {
            1
        } else if self is EndDialogue {
            -1
        } else {
            0
        }
    }

    /// What the statement adds to the number of open scopes of either kind.
    pub open spec fn scope_delta(self) -> int {
        if self.is_opener() {
            1
        } else if self.is_closer() {
            -1
        } else {
            0
        }
    }

    /// The guard expression of a dialogue or a choice, if it has one.
    pub open spec fn guard(self) -> Option<Seq<char>> {
        match self {
            Statement::Dialogue { condition: Some(c), .. } => Some(c@),
            Statement::Choice { condition: Some(c), .. } => Some(c@),
            _ => None,
        }
    }

    /// The line shown for a dialogue or a choice; empty for the other kinds.
    pub open spec fn line(self) -> Seq<char> {
        match self {
            Statement::Dialogue { text, .. } => text@,
            Statement::Choice { text, .. } => text@,
            _ => Seq::empty(),
        }
    }
}

} // verus!
