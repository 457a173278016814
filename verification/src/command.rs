//! The eight canonical commands, and the table that maps a host token to
//! the commands it spells.

use vstd::prelude::*;
use crate::token::{BinOp, Delim, Token};

verus! {

/// One of the eight primitive commands.
#[derive(Clone, Copy, Debug, PartialEq, Eq)]
pub enum Command {
    MoveLeft,
    MoveRight,
    Inc,
    Dec,
    Write,
    Read,
    LoopOpen,
    LoopClose,
}

impl Command {
    /// Whether this is one of the two bracket commands.
    pub open spec fn is_bracket(self) -> bool {
        self is LoopOpen || self is LoopClose
    }
}

/// The commands spelled by a binary operator: `+`, `-`, and the two shifts,
/// each shift being two moves. Every other operator spells nothing.
pub open spec fn binop_commands(op: BinOp) -> Seq<Command> {
    match op {
        BinOp::Plus => seq![Command::Inc],
        BinOp::Minus => seq![Command::Dec],
        BinOp::Shl => seq![Command::MoveLeft, Command::MoveLeft],
        BinOp::Shr => seq![Command::MoveRight, Command::MoveRight],
        _ => Seq::empty(),
    }
}

/// The commands spelled by a lone delimiter: only square brackets count.
pub open spec fn delim_commands(delim: Delim, open: bool) -> Seq<Command> {
    match delim {
        Delim::Bracket => if open {
            seq![Command::LoopOpen]
        } else {
            seq![Command::LoopClose]
        },
        _ => Seq::empty(),
    }
}

/// The decomposition table. A token is read character by character, and a
/// `=` means nothing: `+=` is `+`, `=>` is `>`, `->` is `-` then `>`.
/// The comparisons `<=` and `>=` are not assign-combine forms and spell
/// nothing, like every token this table does not list.
pub open spec fn decompose(tok: Token) -> Seq<Command> {
    match tok {
        Token::Lt => seq![Command::MoveLeft],
        Token::Gt => seq![Command::MoveRight],
        Token::Dot => seq![Command::Write],
        Token::DotDot => seq![Command::Write, Command::Write],
        Token::DotDotDot => seq![Command::Write, Command::Write, Command::Write],
        Token::Comma => seq![Command::Read],
        Token::BinOp(op) => binop_commands(op),
        Token::BinOpEq(op) => binop_commands(op),
        Token::FatArrow => seq![Command::MoveRight],
        Token::RArrow => seq![Command::Dec, Command::MoveRight],
        Token::LArrow => seq![Command::MoveLeft, Command::Dec],
        Token::OpenDelim(d) => delim_commands(d, true),
        Token::CloseDelim(d) => delim_commands(d, false),
        _ => Seq::empty(),
    }
}

/// A token is inert when it spells no command.
pub open spec fn is_inert(tok: Token) -> bool {
    decompose(tok).len() == 0
}

fn push_repeated(out: &mut Vec<Command>, cmd: Command, times: usize)
    ensures
        final(out)@ == old(out)@ + Seq::new(times as nat, |i: int| cmd),
{
    let mut k: usize = 0;
    while k < times
        invariant
            k <= times,
            out@ == old(out)@ + Seq::new(k as nat, |i: int| cmd),
        decreases times - k,
    {
        out.push(cmd);
        k = k + 1;
        assert(out@ =~= old(out)@ + Seq::new(k as nat, |i: int| cmd));
    }
}

/// Appends to `out` the commands that `tok` spells.
pub fn normalize_into(tok: Token, out: &mut Vec<Command>)
    ensures
        final(out)@ == old(out)@ + decompose(tok),
{
    let ghost before = out@;
    match tok {
        Token::Lt => push_repeated(out, Command::MoveLeft, 1),
        Token::Gt | Token::FatArrow => push_repeated(out, Command::MoveRight, 1),
        Token::Dot => push_repeated(out, Command::Write, 1),
        Token::DotDot => push_repeated(out, Command::Write, 2),
        Token::DotDotDot => push_repeated(out, Command::Write, 3),
        Token::Comma => push_repeated(out, Command::Read, 1),
        Token::BinOp(op) | Token::BinOpEq(op) => match op {
            BinOp::Plus => push_repeated(out, Command::Inc, 1),
            BinOp::Minus => push_repeated(out, Command::Dec, 1),
            BinOp::Shl => push_repeated(out, Command::MoveLeft, 2),
            BinOp::Shr => push_repeated(out, Command::MoveRight, 2),
            _ => {},
        },
        Token::RArrow => {
            out.push(Command::Dec);
            out.push(Command::MoveRight);
        },
        Token::LArrow => {
            out.push(Command::MoveLeft);
            out.push(Command::Dec);
        },
        Token::OpenDelim(d) => match d {
            Delim::Bracket => push_repeated(out, Command::LoopOpen, 1),
            _ => {},
        },
        Token::CloseDelim(d) => match d {
            Delim::Bracket => push_repeated(out, Command::LoopClose, 1),
            _ => {},
        },
        _ => {},
    }
    assert(out@ =~= before + decompose(tok));
}

/// The commands that `tok` spells, in order; empty when `tok` is inert.
pub fn normalize(tok: Token) -> (cmds: Vec<Command>)
    ensures
        cmds@ == decompose(tok),
{
    let mut cmds: Vec<Command> = Vec::new();
    normalize_into(tok, &mut cmds);
    assert(cmds@ =~= decompose(tok));
    cmds
}

} // verus!
