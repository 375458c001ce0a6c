//! What a front end shows and asks, as far as it is a matter of rules.

use vstd::prelude::*;
use vstd::string::StringExecFns;

verus! {

/// The index that a prompt stands for: the one that was answered, and the
/// first one if the prompt was left without an answer.
pub fn answered_or_first(answer: Option<usize>) -> (r: usize)
    ensures
        r == match answer {
            Some(k) => k,
            None => 0,
        },
{
    match answer {
        Some(k) => k,
        None => 0,
    }
}

/// The line that is shown for a dialogue: the speaker, a colon and a space,
/// and the text; without a speaker the line starts with the colon.
pub fn spoken_line(speaker: &Option<String>, text: &str) -> (r: String)
    ensures
        r@ == match *speaker {
            Some(name) => name@ + ": "@ + text@,
            None => ": "@ + text@,
        },
{
    let mut line: String = match speaker {
        Some(name) => name.clone(),
        None => String::new(),
    };
    line.append(": ");
    line.append(text);
    proof {
        if speaker is None {
            assert(Seq::<char>::empty() + ": "@ =~= ": "@);
        }
    }
    line
}

} // verus!
