//! From the tree form of a script to its flat form.

use vstd::prelude::*;
use crate::balance::{
    balanced, lemma_open_scopes_through, lemma_scopes_through_both, lemma_scopes_through_one,
    scopes_through, ScopeKind,
};
use crate::statement::{clone_optional, Nested, Statement};

verus! {

/// The flat form of one node: its opener, the flat form of its children in
/// order, and its terminator; or the node itself if it opens no scope.
pub open spec fn flat_node(node: Nested) -> Seq<Statement>
    decreases node, 0int,
{
    match node {
        Nested::Dialogue { speaker, text, condition, children } => seq![
            Statement::Dialogue { speaker, text, condition },
        ] + flat_nodes(children@, children@.len() as int) + seq![Statement::EndDialogue],
        Nested::Choice { text, condition, children } => seq![Statement::Choice { text, condition }]
            + flat_nodes(children@, children@.len() as int) + seq![Statement::EndChoice],
        Nested::Assign { variable, expression } => seq![Statement::Assign { variable, expression }],
        Nested::Jump { target } => seq![Statement::Jump { target }],
    }
}

/// The flat forms of the first `count` nodes, one after the other.
pub open spec fn flat_nodes(nodes: Seq<Nested>, count: int) -> Seq<Statement>
    decreases nodes, count,
{
    if count <= 0 || count > nodes.len() {
        Seq::empty()
    } else {
        flat_nodes(nodes, count - 1) + flat_node(nodes[count - 1])
    }
}

/// The flat form of a script in tree form.
pub open spec fn flat(nodes: Seq<Nested>) -> Seq<Statement> {
    flat_nodes(nodes, nodes.len() as int)
}

/// Appends the flat form of `nodes` to `out`.
fn flatten_into(nodes: &Vec<Nested>, out: &mut Vec<Statement>)
    ensures
        final(out)@ == old(out)@ + flat(nodes@),
    decreases nodes,
{
    let n: usize = nodes.len();
    let mut i: usize = 0;
    assert(out@ =~= old(out)@ + flat_nodes(nodes@, 0));
    while i < n
        invariant
            n == nodes.len(),
            i <= n,
            out@ == old(out)@ + flat_nodes(nodes@, i as int),
        decreases n - i,
    {
        let ghost before = out@;
        match &nodes[i] {
            Nested::Dialogue { speaker, text, condition, children } => {
                out.push(
                    Statement::Dialogue {
                        speaker: clone_optional(speaker),
                        text: text.clone(),
                        condition: clone_optional(condition),
                    },
                );
                flatten_into(children, out);
                out.push(Statement::EndDialogue);
            },
            Nested::Choice { text, condition, children } => {
                out.push(
                    Statement::Choice { text: text.clone(), condition: clone_optional(condition) },
                );
                flatten_into(children, out);
                out.push(Statement::EndChoice);
            },
            Nested::Assign { variable, expression } => {
                out.push(
                    Statement::Assign { variable: variable.clone(), expression: expression.clone() },
                );
            },
            Nested::Jump { target } => {
                out.push(Statement::Jump { target: target.clone() });
            },
        }
        assert(out@ =~= before + flat_node(nodes@[i as int]));
        assert(out@ =~= old(out)@ + flat_nodes(nodes@, i + 1));
        i = i + 1;
    }
}

/// Turns a script in tree form into its flat form: depth first, left to
/// right, each dialogue and choice as its opener, its children and its
/// terminator. Guards are carried over as they are, and a dialogue keeps its
/// scope whether or not it has choices.
pub fn flatten(nodes: &Vec<Nested>) -> (r: Vec<Statement>)
    ensures
        r@ == flat(nodes@),
{
    let mut out: Vec<Statement> = Vec::new();
    flatten_into(nodes, &mut out);
    assert(out@ =~= flat(nodes@));
    out
}

/// The flat form of a node leaves the open scopes as it found them.
pub proof fn lemma_flat_node_closes(node: Nested, from: Seq<ScopeKind>)
    ensures
        scopes_through(flat_node(node), from) == Some(from),
    decreases node, 0int,
{
    match node {
        Nested::Dialogue { speaker, text, condition, children } => {
            let opener = seq![Statement::Dialogue { speaker, text, condition }];
            let body = flat_nodes(children@, children@.len() as int);
            let closer = seq![Statement::EndDialogue];
            let inside = from.push(ScopeKind::Dialogue);
            lemma_scopes_through_one(opener[0], from);
            assert(opener =~= seq![opener[0]]);
            lemma_flat_nodes_close(children@, children@.len() as int, inside);
            lemma_scopes_through_both(opener, body, from);
            lemma_scopes_through_one(closer[0], inside);
            assert(closer =~= seq![closer[0]]);
            assert(inside.drop_last() =~= from);
            lemma_scopes_through_both(opener + body, closer, from);
        },
        Nested::Choice { text, condition, children } => {
            let opener = seq![Statement::Choice { text, condition }];
            let body = flat_nodes(children@, children@.len() as int);
            let closer = seq![Statement::EndChoice];
            let inside = from.push(ScopeKind::Choice);
            lemma_scopes_through_one(opener[0], from);
            assert(opener =~= seq![opener[0]]);
            lemma_flat_nodes_close(children@, children@.len() as int, inside);
            lemma_scopes_through_both(opener, body, from);
            lemma_scopes_through_one(closer[0], inside);
            assert(closer =~= seq![closer[0]]);
            assert(inside.drop_last() =~= from);
            lemma_scopes_through_both(opener + body, closer, from);
        },
        Nested::Assign { variable, expression } => {
            lemma_scopes_through_one(Statement::Assign { variable, expression }, from);
        },
        Nested::Jump { target } => {
            lemma_scopes_through_one(Statement::Jump { target }, from);
        },
    }
}

/// The flat form of a run of nodes leaves the open scopes as it found them.
pub proof fn lemma_flat_nodes_close(nodes: Seq<Nested>, count: int, from: Seq<ScopeKind>)
    ensures
        scopes_through(flat_nodes(nodes, count), from) == Some(from),
    decreases nodes, count,
{
    if !(count <= 0 || count > nodes.len()) {
        lemma_flat_nodes_close(nodes, count - 1, from);
        lemma_flat_node_closes(nodes[count - 1], from);
        lemma_scopes_through_both(flat_nodes(nodes, count - 1), flat_node(nodes[count - 1]), from);
    }
}

/// The flat form of any tree is balanced.
pub proof fn lemma_flat_is_balanced(nodes: Seq<Nested>)
    ensures
        balanced(flat(nodes)),
{
    let s = flat(nodes);
    lemma_flat_nodes_close(nodes, nodes.len() as int, Seq::empty());
    lemma_open_scopes_through(s, s.len() as int);
    assert(s.take(s.len() as int) =~= s);
}

} // verus!
