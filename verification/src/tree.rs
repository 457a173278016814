//! The command tree, and the structural compiler that builds it from
//! grouped tokens.

use vstd::prelude::*;
use crate::command::{decompose, normalize, Command};
use crate::token::{Delim, Span, TokenTree};

verus! {

/// The mathematical command tree: a command, or a loop around a sequence of
/// trees.
pub enum Ast {
    Op(Command),
    Loop(Seq<Ast>),
}

/// A node of the command tree.
#[derive(Debug, PartialEq, Eq)]
pub enum Node {
    /// One of the six commands that act on tape, pointer or streams.
    Op(Command),
    /// While the current cell is not zero, run the children.
    Loop(Vec<Node>),
}

/// The tree that a node stands for.
pub open spec fn node_view(node: Node) -> Ast
    decreases node,
{
    match node {
        Node::Op(c) => Ast::Op(c),
        Node::Loop(body) => Ast::Loop(nodes_view(body@)),
    }
}

/// The trees that a sequence of nodes stands for, one for one.
pub open spec fn nodes_view(nodes: Seq<Node>) -> Seq<Ast>
    decreases nodes,
{
    if nodes.len() == 0 {
        Seq::empty()
    } else {
        nodes_view(nodes.drop_last()).push(node_view(nodes.last()))
    }
}

/// `nodes_view` keeps the length and maps each node by `node_view`.
pub proof fn lemma_nodes_view_index(nodes: Seq<Node>)
    ensures
        nodes_view(nodes).len() == nodes.len(),
        forall|i: int| 0 <= i < nodes.len() ==> #[trigger] nodes_view(nodes)[i] == node_view(nodes[i]),
    decreases nodes.len(),
{
    if nodes.len() > 0 {
        lemma_nodes_view_index(nodes.drop_last());
    }
}

/// `nodes_view` distributes over concatenation.
pub proof fn lemma_nodes_view_concat(a: Seq<Node>, b: Seq<Node>)
    ensures
        nodes_view(a + b) == nodes_view(a) + nodes_view(b),
{
    lemma_nodes_view_index(a);
    lemma_nodes_view_index(b);
    lemma_nodes_view_index(a + b);
    assert(nodes_view(a + b) =~= nodes_view(a) + nodes_view(b));
}

/// A compiled program: a command tree that nothing changes once it is
/// built, and that any number of executions can share.
#[derive(Debug, PartialEq, Eq)]
pub struct Program {
    nodes: Vec<Node>,
}

impl View for Program {
    type V = Seq<Ast>;

    closed spec fn view(&self) -> Seq<Ast> {
        nodes_view(self.nodes@)
    }
}

impl Program {
    /// The top level of the command tree.
    pub fn nodes(&self) -> (nodes: &Vec<Node>)
        ensures
            nodes_view(nodes@) == self@,
    {
        &self.nodes
    }
}

/// Whether a tree holds no bracket command: all looping is carried by
/// `Loop` nodes.
pub open spec fn ast_bracket_free(ast: Ast) -> bool
    decreases ast,
{
    match ast {
        Ast::Op(c) => !c.is_bracket(),
        Ast::Loop(body) => forall|i: int|
            0 <= i < body.len() ==> ast_bracket_free(#[trigger] body[i]),
    }
}

/// Whether a sequence of trees holds no bracket command.
pub open spec fn bracket_free(trees: Seq<Ast>) -> bool {
    forall|i: int| 0 <= i < trees.len() ==> ast_bracket_free(#[trigger] trees[i])
}

/// The constructs of the host grammar that are not supported.
#[derive(Clone, Copy, Debug, PartialEq, Eq)]
pub enum Construct {
    /// A repetition placeholder.
    Sequence,
}

/// Why a compilation was rejected.
#[derive(Clone, Copy, Debug, PartialEq, Eq)]
pub enum CompileError {
    /// A square bracket without a partner, at the given place.
    UnmatchedBracket(Span),
    /// A construct that cannot be compiled, at the given place.
    UnsupportedConstruct(Span, Construct),
}

impl Construct {
    /// The words that name the construct in a diagnostic.
    pub open spec fn description_spec(self) -> Seq<char> {
        match self {
            Construct::Sequence => "sequences unsupported"@,
        }
    }

    /// The words that name the construct in a diagnostic.
    pub fn description(self) -> (text: &'static str)
        ensures
            text@ == self.description_spec(),
    {
        match self {
            Construct::Sequence => "sequences unsupported",
        }
    }
}

impl CompileError {
    /// The place in the source that the error is reported against.
    pub open spec fn span_spec(self) -> Span {
        match self {
            CompileError::UnmatchedBracket(span) => span,
            CompileError::UnsupportedConstruct(span, _) => span,
        }
    }

    /// The place in the source that the error is reported against.
    pub fn span(self) -> (span: Span)
        ensures
            span == self.span_spec(),
    {
        match self {
            CompileError::UnmatchedBracket(span) => span,
            CompileError::UnsupportedConstruct(span, _) => span,
        }
    }
}

/// Appends the second result to the first; the leftmost error wins.
pub open spec fn join(
    first: Result<Seq<Ast>, CompileError>,
    second: Result<Seq<Ast>, CompileError>,
) -> Result<Seq<Ast>, CompileError> {
    match first {
        Err(e) => Err(e),
        Ok(a) => match second {
            Err(e) => Err(e),
            Ok(b) => Ok(a + b),
        },
    }
}

/// The tree nodes for the commands of one token found at `span`: each
/// command in order, or `UnmatchedBracket` if one of them is a bracket.
pub open spec fn lower(cmds: Seq<Command>, span: Span) -> Result<Seq<Ast>, CompileError> {
    if exists|i: int| 0 <= i < cmds.len() && (#[trigger] cmds[i]).is_bracket() {
        Err(CompileError::UnmatchedBracket(span))
    } else {
        Ok(Seq::new(cmds.len(), |i: int| Ast::Op(cmds[i])))
    }
}

/// What one token tree compiles to. A token gives the commands it spells.
/// A square-bracket group gives one loop around the compilation of its
/// contents; any other group gives the compilation of its contents in
/// place. A repetition placeholder is rejected.
pub open spec fn compile_tree_spec(tt: TokenTree) -> Result<Seq<Ast>, CompileError>
    decreases tt,
{
    match tt {
        TokenTree::Token(span, tok) => lower(decompose(tok), span),
        TokenTree::Delimited(_, delim, children) => match compile_spec(children@) {
            Err(e) => Err(e),
            Ok(body) => if delim is Bracket {
                Ok(seq![Ast::Loop(body)])
            } else {
                Ok(body)
            },
        },
        TokenTree::Sequence(span) => Err(
            CompileError::UnsupportedConstruct(span, Construct::Sequence),
        ),
    }
}

/// What a sequence of token trees compiles to: the compilations of its
/// members, left to right, or the leftmost error.
pub open spec fn compile_spec(tts: Seq<TokenTree>) -> Result<Seq<Ast>, CompileError>
    decreases tts,
{
    if tts.len() == 0 {
        Ok(Seq::empty())
    } else {
        join(compile_spec(tts.drop_last()), compile_tree_spec(tts.last()))
    }
}

/// Turns the commands of one token into tree nodes.
pub fn lower_commands(cmds: &Vec<Command>, span: Span) -> (res: Result<Vec<Node>, CompileError>)
    ensures
        match res {
            Ok(nodes) => lower(cmds@, span) == Ok::<Seq<Ast>, CompileError>(nodes_view(nodes@)),
            Err(e) => lower(cmds@, span) == Err::<Seq<Ast>, CompileError>(e),
        },
{
    let mut nodes: Vec<Node> = Vec::new();
    let mut i: usize = 0;
    while i < cmds.len()
        invariant
            i <= cmds.len(),
            nodes@.len() == i,
            forall|j: int| 0 <= j < i ==> !(#[trigger] cmds@[j]).is_bracket(),
            forall|j: int| 0 <= j < i ==> #[trigger] nodes@[j] == Node::Op(cmds@[j]),
        decreases cmds.len() - i,
    {
        let c: Command = cmds[i];
        match c {
            Command::LoopOpen | Command::LoopClose => {
                assert(cmds@[i as int].is_bracket());
                return Err(CompileError::UnmatchedBracket(span));
            },
            _ => {},
        }
        nodes.push(Node::Op(c));
        i = i + 1;
    }
    proof {
        lemma_nodes_view_index(nodes@);
        assert(nodes_view(nodes@) =~= Seq::new(cmds@.len(), |i: int| Ast::Op(cmds@[i])));
    }
    Ok(nodes)
}

/// Compiles one token tree.
pub fn compile_tree(tt: &TokenTree) -> (res: Result<Vec<Node>, CompileError>)
    ensures
        match res {
            Ok(nodes) => compile_tree_spec(*tt) == Ok::<Seq<Ast>, CompileError>(nodes_view(nodes@)),
            Err(e) => compile_tree_spec(*tt) == Err::<Seq<Ast>, CompileError>(e),
        },
    decreases tt,
{
    match tt {
        TokenTree::Token(span, tok) => {
            let cmds = normalize(*tok);
            lower_commands(&cmds, *span)
        },
        TokenTree::Delimited(_, delim, children) => {
            match compile_trees(children) {
                Err(e) => Err(e),
                Ok(body) => match delim {
                    Delim::Bracket => {
                        let ghost inner = nodes_view(body@);
                        let mut nodes: Vec<Node> = Vec::new();
                        nodes.push(Node::Loop(body));
                        proof {
                            lemma_nodes_view_index(nodes@);
                            assert(nodes_view(nodes@) =~= seq![Ast::Loop(inner)]);
                        }
                        Ok(nodes)
                    },
                    _ => Ok(body),
                },
            }
        },
        TokenTree::Sequence(span) => Err(
            CompileError::UnsupportedConstruct(*span, Construct::Sequence),
        ),
    }
}

/// Compiles a sequence of token trees, left to right.
pub fn compile_trees(tts: &Vec<TokenTree>) -> (res: Result<Vec<Node>, CompileError>)
    ensures
        match res {
            Ok(nodes) => compile_spec(tts@) == Ok::<Seq<Ast>, CompileError>(nodes_view(nodes@)),
            Err(e) => compile_spec(tts@) == Err::<Seq<Ast>, CompileError>(e),
        },
    decreases tts,
{
    let mut nodes: Vec<Node> = Vec::new();
    let mut i: usize = 0;
    assert(tts@.take(0) =~= Seq::empty());
    while i < tts.len()
        invariant
            i <= tts.len(),
            compile_spec(tts@.take(i as int)) == Ok::<Seq<Ast>, CompileError>(nodes_view(nodes@)),
        decreases tts.len() - i,
    {
        let ghost before = nodes@;
        proof {
            assert(tts@.take(i + 1).drop_last() =~= tts@.take(i as int));
            assert(tts@.take(i + 1).last() == tts@[i as int]);
        }
        match compile_tree(&tts[i]) {
            Err(e) => {
                proof {
                    lemma_error_persists(tts@, i + 1);
                }
                return Err(e);
            },
            Ok(mut part) => {
                let ghost added = part@;
                nodes.append(&mut part);
                proof {
                    lemma_nodes_view_concat(before, added);
                }
            },
        }
        i = i + 1;
    }
    assert(tts@.take(i as int) =~= tts@);
    Ok(nodes)
}

/// Once a prefix fails to compile, the whole sequence fails the same way.
pub proof fn lemma_error_persists(tts: Seq<TokenTree>, n: int)
    requires
        0 <= n <= tts.len(),
        compile_spec(tts.take(n)) is Err,
    ensures
        compile_spec(tts) == compile_spec(tts.take(n)),
    decreases tts.len() - n,
{
    if n < tts.len() {
        assert(tts.take(n + 1).drop_last() =~= tts.take(n));
        lemma_error_persists(tts, n + 1);
    } else {
        assert(tts.take(n) =~= tts);
    }
}

/// What one token compiles to holds no bracket command.
pub proof fn lemma_tree_bracket_free(tt: TokenTree)
    ensures
        compile_tree_spec(tt) is Ok ==> bracket_free(compile_tree_spec(tt).unwrap()),
    decreases tt,
{
    match tt {
        TokenTree::Token(span, tok) => {
            let cmds = decompose(tok);
            if lower(cmds, span) is Ok {
                let trees = lower(cmds, span).unwrap();
                assert forall|i: int| 0 <= i < trees.len() implies ast_bracket_free(
                    #[trigger] trees[i],
                ) by {
                    assert(!cmds[i].is_bracket());
                }
            }
        },
        TokenTree::Delimited(_, delim, children) => {
            lemma_bracket_free(children@);
        },
        TokenTree::Sequence(_) => {},
    }
}

/// Whatever is compiled holds no bracket command.
pub proof fn lemma_bracket_free(tts: Seq<TokenTree>)
    ensures
        compile_spec(tts) is Ok ==> bracket_free(compile_spec(tts).unwrap()),
    decreases tts,
{
    if tts.len() > 0 {
        lemma_bracket_free(tts.drop_last());
        lemma_tree_bracket_free(tts.last());
    }
}

/// Compiles grouped tokens into a program. Nothing is produced when the
/// tokens hold a lone square bracket or a repetition placeholder: the
/// leftmost such place is reported.
pub fn compile(tts: &Vec<TokenTree>) -> (res: Result<Program, CompileError>)
    ensures
        match res {
            Ok(program) => compile_spec(tts@) == Ok::<Seq<Ast>, CompileError>(program@)
                && bracket_free(program@),
            Err(e) => compile_spec(tts@) == Err::<Seq<Ast>, CompileError>(e),
        },
{
    proof {
        lemma_bracket_free(tts@);
    }
    match compile_trees(tts) {
        Ok(nodes) => Ok(Program { nodes }),
        Err(e) => Err(e),
    }
}

} // verus!
