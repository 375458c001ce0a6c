//! From the lines of a script to a timeline that is fit to run.

use vstd::prelude::*;
use crate::balance::{is_well_nested, well_nested};
use crate::flatten::{flat, flatten, lemma_flat_is_balanced};
use crate::parser::{forest, lines_view, parse_lines, parsed, ParseError};
use crate::statement::{Nested, Statement};

verus! {

/// Why a script was not made into a timeline.
#[derive(Debug, Clone, Copy, PartialEq, Eq, Structural)]
pub enum CompileError {
    /// The script was refused when it was read.
    Parse(ParseError),
    /// A choice that is not the choice of a dialogue: it stands at the top
    /// of the script or directly under another choice.
    StrayChoice,
}

/// What compiling gives for a script whose tree form is `nodes`: its flat
/// form if that is well nested, and `StrayChoice` if it is not.
pub open spec fn compiled_from(
    nodes: Seq<Nested>,
    r: Result<Vec<Statement>, CompileError>,
) -> bool {
    if well_nested(flat(nodes)) {
        r matches Ok(timeline) && timeline@ == flat(nodes)
    } else {
        r matches Err(CompileError::StrayChoice)
    }
}

/// Reads a script, given by its lines, and flattens it. A script that is
/// refused when it is read is refused with that error. A script with a
/// choice that belongs to no dialogue is refused as well, so the timeline
/// that comes out is well nested.
pub fn compile(lines: &Vec<String>) -> (r: Result<Vec<Statement>, CompileError>)
    ensures
        parsed(lines_view(lines@)) matches Err(error) ==> r matches Err(
            CompileError::Parse(refused),
        ) && refused == error,
        parsed(lines_view(lines@)) matches Ok(tree) ==> exists|nodes: Seq<Nested>|
            forest(nodes) == tree && #[trigger] compiled_from(nodes, r),
        r matches Ok(timeline) ==> well_nested(timeline@),
{
    let nodes: Vec<Nested> = match parse_lines(lines) {
        Ok(nodes) => nodes,
        Err(error) => {
            return Err(CompileError::Parse(error));
        },
    };
    let timeline: Vec<Statement> = flatten(&nodes);
    proof {
        lemma_flat_is_balanced(nodes@);
    }
    if is_well_nested(&timeline) {
        let r: Result<Vec<Statement>, CompileError> = Ok(timeline);
        assert(compiled_from(nodes@, r));
        r
    } else {
        let r: Result<Vec<Statement>, CompileError> = Err(CompileError::StrayChoice);
        assert(compiled_from(nodes@, r));
        r
    }
}

} // verus!
