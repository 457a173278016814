//! The parts one by one: the token table, the structural compiler, the
//! machine and the bounded run.

use brainfuck::command::{normalize, normalize_into, Command};
use brainfuck::machine::{Action, IoEvent, Machine, Verdict, TAPE_LEN};
use brainfuck::run::{run, Status};
use brainfuck::token::{BinOp, Delim, Span, Token, TokenTree};
use brainfuck::tree::{
    compile, compile_tree, compile_trees, lower_commands, CompileError, Construct, Node, Program,
};

fn at(lo: u32) -> Span {
    Span { lo, hi: lo + 1 }
}

fn leaf(lo: u32, tok: Token) -> TokenTree {
    TokenTree::Token(at(lo), tok)
}

/// One token per character of `src`, with square brackets grouped.
fn plain(src: &str) -> Vec<TokenTree> {
    let mut stack: Vec<(u32, Vec<TokenTree>)> = vec![(0, Vec::new())];
    for (i, c) in src.chars().enumerate() {
        let lo = i as u32;
        let tok = match c {
            '<' => Token::Lt,
            '>' => Token::Gt,
            '+' => Token::BinOp(BinOp::Plus),
            '-' => Token::BinOp(BinOp::Minus),
            '.' => Token::Dot,
            ',' => Token::Comma,
            '[' => {
                stack.push((lo, Vec::new()));
                continue;
            }
            ']' => {
                let (open, inner) = stack.pop().unwrap();
                let span = Span { lo: open, hi: lo + 1 };
                stack.last_mut().unwrap().1.push(TokenTree::Delimited(span, Delim::Bracket, inner));
                continue;
            }
            _ => Token::Other,
        };
        stack.last_mut().unwrap().1.push(leaf(lo, tok));
    }
    assert_eq!(stack.len(), 1);
    stack.pop().unwrap().1
}

fn program(src: &str) -> Program {
    compile(&plain(src)).unwrap()
}

/// Steps until the machine halts or waits, and counts the steps.
fn steps_to_rest(m: &mut Machine) -> u64 {
    let mut n = 0;
    loop {
        assert!(m.is_valid());
        match m.peek() {
            Action::Halt | Action::Read => return n,
            _ => {
                m.step();
                n += 1;
            }
        }
    }
}

#[test]
fn single_characters_spell_one_command() {
    assert_eq!(normalize(Token::Lt), vec![Command::MoveLeft]);
    assert_eq!(normalize(Token::Gt), vec![Command::MoveRight]);
    assert_eq!(normalize(Token::BinOp(BinOp::Plus)), vec![Command::Inc]);
    assert_eq!(normalize(Token::BinOp(BinOp::Minus)), vec![Command::Dec]);
    assert_eq!(normalize(Token::Dot), vec![Command::Write]);
    assert_eq!(normalize(Token::Comma), vec![Command::Read]);
}

#[test]
fn shifts_spell_two_moves() {
    assert_eq!(normalize(Token::BinOp(BinOp::Shl)), vec![Command::MoveLeft, Command::MoveLeft]);
    assert_eq!(normalize(Token::BinOp(BinOp::Shr)), vec![Command::MoveRight, Command::MoveRight]);
    let mut twice = normalize(Token::Lt);
    twice.extend(normalize(Token::Lt));
    assert_eq!(normalize(Token::BinOp(BinOp::Shl)), twice);
    let mut twice = normalize(Token::Gt);
    twice.extend(normalize(Token::Gt));
    assert_eq!(normalize(Token::BinOp(BinOp::Shr)), twice);
}

#[test]
fn dots_spell_writes() {
    assert_eq!(normalize(Token::DotDot), vec![Command::Write, Command::Write]);
    assert_eq!(
        normalize(Token::DotDotDot),
        vec![Command::Write, Command::Write, Command::Write]
    );
}

#[test]
fn assignment_suffix_is_dropped() {
    assert_eq!(normalize(Token::BinOpEq(BinOp::Plus)), vec![Command::Inc]);
    assert_eq!(normalize(Token::BinOpEq(BinOp::Minus)), vec![Command::Dec]);
    assert_eq!(normalize(Token::BinOpEq(BinOp::Shl)), vec![Command::MoveLeft, Command::MoveLeft]);
    assert_eq!(
        normalize(Token::BinOpEq(BinOp::Shr)),
        vec![Command::MoveRight, Command::MoveRight]
    );
    assert_eq!(normalize(Token::FatArrow), vec![Command::MoveRight]);
}

#[test]
fn arrows_spell_their_characters() {
    assert_eq!(normalize(Token::RArrow), vec![Command::Dec, Command::MoveRight]);
    assert_eq!(normalize(Token::LArrow), vec![Command::MoveLeft, Command::Dec]);
}

#[test]
fn lone_brackets_spell_bracket_commands() {
    assert_eq!(normalize(Token::OpenDelim(Delim::Bracket)), vec![Command::LoopOpen]);
    assert_eq!(normalize(Token::CloseDelim(Delim::Bracket)), vec![Command::LoopClose]);
    assert!(normalize(Token::OpenDelim(Delim::Paren)).is_empty());
    assert!(normalize(Token::CloseDelim(Delim::Brace)).is_empty());
}

#[test]
fn other_tokens_are_inert() {
    for tok in [
        Token::Le,
        Token::Ge,
        Token::Eq,
        Token::Dollar,
        Token::Ident,
        Token::Literal,
        Token::Other,
        Token::BinOp(BinOp::Star),
        Token::BinOp(BinOp::Slash),
        Token::BinOp(BinOp::Percent),
        Token::BinOp(BinOp::Caret),
        Token::BinOp(BinOp::And),
        Token::BinOp(BinOp::Or),
        Token::BinOpEq(BinOp::Star),
        Token::BinOpEq(BinOp::Or),
    ] {
        assert!(normalize(tok).is_empty(), "{:?}", tok);
    }
}

#[test]
fn bracket_group_becomes_a_loop() {
    let p = program("+[->+<]");
    assert_eq!(
        p.nodes(),
        &vec![
            Node::Op(Command::Inc),
            Node::Loop(vec![
                Node::Op(Command::Dec),
                Node::Op(Command::MoveRight),
                Node::Op(Command::Inc),
                Node::Op(Command::MoveLeft),
            ]),
        ]
    );
}

#[test]
fn nested_groups_keep_their_order() {
    let p = program("[[-]>[.]]");
    assert_eq!(
        p.nodes(),
        &vec![Node::Loop(vec![
            Node::Loop(vec![Node::Op(Command::Dec)]),
            Node::Op(Command::MoveRight),
            Node::Loop(vec![Node::Op(Command::Write)]),
        ])]
    );
}

#[test]
fn other_delimiters_are_transparent() {
    let inner = plain("+[-]");
    let wrapped = vec![
        leaf(0, Token::Gt),
        TokenTree::Delimited(at(1), Delim::Paren, vec![TokenTree::Delimited(at(2), Delim::Brace, inner)]),
        leaf(9, Token::Lt),
    ];
    assert_eq!(compile(&wrapped).unwrap(), program(">+[-]<"));
}

#[test]
fn empty_input_is_the_empty_program() {
    let p = compile(&Vec::new()).unwrap();
    assert!(p.nodes().is_empty());
    let outcome = run(&p, b"", 0);
    assert_eq!(outcome.status, Status::Finished);
    assert!(outcome.output.is_empty());
}

#[test]
fn filler_changes_nothing() {
    let bare = plain("+[->+<]>.");
    let mut filled = vec![leaf(100, Token::Ident)];
    for (i, tt) in plain("+[->+<]>.").into_iter().enumerate() {
        filled.push(tt);
        filled.push(leaf(200 + i as u32, Token::Literal));
        filled.push(leaf(300 + i as u32, Token::BinOpEq(BinOp::Star)));
    }
    assert_eq!(filled.len(), 1 + 3 * bare.len());
    assert_eq!(compile(&filled).unwrap(), compile(&bare).unwrap());
    let a = run(&compile(&filled).unwrap(), b"", 1000);
    let b = run(&compile(&bare).unwrap(), b"", 1000);
    assert_eq!(a.output, vec![1]);
    assert_eq!(a.output, b.output);
    assert_eq!(a.tape, b.tape);
}

#[test]
fn shift_compiles_as_two_moves() {
    let shifted = vec![
        leaf(0, Token::BinOp(BinOp::Plus)),
        leaf(1, Token::BinOp(BinOp::Shr)),
        leaf(3, Token::BinOp(BinOp::Plus)),
        leaf(4, Token::BinOp(BinOp::Shl)),
        leaf(6, Token::Dot),
    ];
    assert_eq!(compile(&shifted).unwrap(), program("+>>+<<."));
    let outcome = run(&compile(&shifted).unwrap(), b"", 100);
    assert_eq!(outcome.output, vec![1]);
    assert_eq!(outcome.tape[2], 1);
}

#[test]
fn lone_closing_bracket_is_rejected() {
    let tts = vec![leaf(0, Token::BinOp(BinOp::Plus)), leaf(1, Token::CloseDelim(Delim::Bracket))];
    assert_eq!(compile(&tts), Err(CompileError::UnmatchedBracket(at(1))));
}

#[test]
fn lone_opening_bracket_is_rejected() {
    let tts = vec![leaf(7, Token::OpenDelim(Delim::Bracket)), leaf(8, Token::Dot)];
    assert_eq!(compile(&tts), Err(CompileError::UnmatchedBracket(at(7))));
    assert_eq!(compile_tree(&tts[0]), Err(CompileError::UnmatchedBracket(at(7))));
}

#[test]
fn lone_foreign_delimiter_is_inert() {
    let tts = vec![
        leaf(0, Token::OpenDelim(Delim::Paren)),
        leaf(1, Token::BinOp(BinOp::Plus)),
        leaf(2, Token::CloseDelim(Delim::Brace)),
    ];
    assert_eq!(compile(&tts).unwrap(), program("+"));
}

#[test]
fn repetition_placeholder_is_rejected() {
    let tts = vec![leaf(0, Token::Dot), TokenTree::Sequence(at(4)), leaf(9, Token::Dot)];
    assert_eq!(
        compile(&tts),
        Err(CompileError::UnsupportedConstruct(at(4), Construct::Sequence))
    );
}

#[test]
fn leftmost_error_is_reported() {
    let nested = TokenTree::Delimited(
        at(2),
        Delim::Bracket,
        vec![TokenTree::Delimited(at(3), Delim::Paren, vec![TokenTree::Sequence(at(4))])],
    );
    let tts = vec![leaf(0, Token::Ident), nested, leaf(9, Token::CloseDelim(Delim::Bracket))];
    assert_eq!(
        compile_trees(&tts),
        Err(CompileError::UnsupportedConstruct(at(4), Construct::Sequence))
    );
    let tts = vec![leaf(1, Token::CloseDelim(Delim::Bracket)), TokenTree::Sequence(at(4))];
    assert_eq!(compile_trees(&tts), Err(CompileError::UnmatchedBracket(at(1))));
}

#[test]
fn fresh_machine_has_a_zero_tape() {
    let p = program("+");
    let m = Machine::new(&p);
    assert!(m.is_valid());
    assert_eq!(m.pointer(), 0);
    assert_eq!(m.tape().len(), 30_000);
    assert_eq!(TAPE_LEN, 30_000);
    assert!(m.tape().iter().all(|&c| c == 0));
}

#[test]
fn pointer_stops_at_the_left_end() {
    let p = program("<<<+");
    let mut m = Machine::new(&p);
    steps_to_rest(&mut m);
    assert_eq!(m.pointer(), 0);
    assert_eq!(m.tape()[0], 1);
}

#[test]
fn pointer_stops_at_the_right_end() {
    let mut src = ">".repeat(29_999);
    let p = program(&src);
    let mut m = Machine::new(&p);
    steps_to_rest(&mut m);
    assert_eq!(m.pointer(), 29_999);
    src.push_str(">>>>>+");
    let p = program(&src);
    let mut m = Machine::new(&p);
    steps_to_rest(&mut m);
    assert_eq!(m.pointer(), 29_999);
    assert_eq!(m.tape()[29_999], 1);
}

#[test]
fn cells_wrap_around() {
    let outcome = run(&program("-"), b"", 10);
    assert_eq!(outcome.tape[0], 255);
    let outcome = run(&program("-+"), b"", 10);
    assert_eq!(outcome.tape[0], 0);
    let outcome = run(&program(&"+".repeat(256)), b"", 1000);
    assert_eq!(outcome.tape[0], 0);
    let outcome = run(&program(&"+".repeat(255)), b"", 1000);
    assert_eq!(outcome.tape[0], 255);
}

#[test]
fn loop_on_zero_is_skipped() {
    let p = program("[+>+.]>");
    let mut m = Machine::new(&p);
    assert_eq!(m.step(), Action::Continue);
    assert_eq!(m.pointer(), 0);
    assert!(m.tape().iter().all(|&c| c == 0));
    assert_eq!(m.step(), Action::Continue);
    assert_eq!(m.pointer(), 1);
    assert_eq!(m.step(), Action::Halt);
    let outcome = run(&p, b"", 100);
    assert_eq!(outcome.status, Status::Finished);
    assert!(outcome.output.is_empty());
}

#[test]
fn counting_loop_runs_once_for_each_unit() {
    // One step enters the loop; each round is one body step and one test.
    for v in [0u64, 1, 2, 5, 255] {
        let src = format!("{}[-]", "+".repeat(v as usize));
        let p = program(&src);
        let mut m = Machine::new(&p);
        assert_eq!(steps_to_rest(&mut m), v + 1 + v * 2);
        assert_eq!(m.tape()[0], 0);
    }
    // A body of four steps that writes once each round.
    let p = program("+++[->.<]");
    let mut m = Machine::new(&p);
    let mut writes = 0;
    let mut steps = 0;
    loop {
        match m.step() {
            Action::Halt => break,
            Action::Write(_) => writes += 1,
            _ => {}
        }
        steps += 1;
    }
    assert_eq!(writes, 3);
    assert_eq!(steps, 3 + 1 + 3 * (4 + 1));
}

#[test]
fn write_hands_out_the_current_cell() {
    let p = program("+++.");
    let mut m = Machine::new(&p);
    assert_eq!(m.step(), Action::Continue);
    assert_eq!(m.step(), Action::Continue);
    assert_eq!(m.step(), Action::Continue);
    assert_eq!(m.peek(), Action::Write(3));
    assert_eq!(m.step(), Action::Write(3));
    assert_eq!(m.step(), Action::Halt);
    assert_eq!(m.step(), Action::Halt);
    assert_eq!(m.into_tape()[0], 3);
}

#[test]
fn read_waits_for_a_byte() {
    let p = program(",>+");
    let mut m = Machine::new(&p);
    assert_eq!(m.peek(), Action::Read);
    assert_eq!(m.step(), Action::Read);
    assert_eq!(m.step(), Action::Read);
    assert_eq!(m.tape()[0], 0);
    assert!(m.feed(65));
    assert_eq!(m.tape()[0], 65);
    assert!(!m.feed(66));
    assert_eq!(m.tape()[0], 65);
    assert_eq!(m.step(), Action::Continue);
    assert_eq!(m.step(), Action::Continue);
    assert_eq!(m.step(), Action::Halt);
    assert_eq!(m.pointer(), 1);
}

#[test]
fn events_decide_how_to_go_on() {
    let p = program(",.");
    let mut m = Machine::new(&p);
    assert_eq!(m.supply(IoEvent::EndOfInput), Verdict::Finish);
    assert_eq!(m.peek(), Action::Read);
    assert_eq!(m.supply(IoEvent::ReadFailed), Verdict::Abort);
    assert_eq!(m.peek(), Action::Read);
    assert_eq!(m.supply(IoEvent::Byte(7)), Verdict::Proceed);
    assert_eq!(m.tape()[0], 7);
    assert_eq!(m.step(), Action::Write(7));
    assert_eq!(m.supply(IoEvent::WriteFailed), Verdict::Abort);
    assert_eq!(m.supply(IoEvent::Written), Verdict::Proceed);
    assert_eq!(m.supply(IoEvent::Byte(9)), Verdict::Proceed);
    assert_eq!(m.tape()[0], 7);
    assert_eq!(m.step(), Action::Halt);
}

#[test]
fn fuel_bounds_the_run() {
    let outcome = run(&program("+[]"), b"", 1000);
    assert_eq!(outcome.status, Status::OutOfFuel);
    assert_eq!(outcome.tape[0], 1);
    let outcome = run(&program("+++"), b"", 2);
    assert_eq!(outcome.status, Status::OutOfFuel);
    assert_eq!(outcome.tape[0], 2);
    let outcome = run(&program("+++"), b"", 3);
    assert_eq!(outcome.status, Status::Finished);
    assert_eq!(outcome.tape[0], 3);
    let outcome = run(&program(",."), b"x", 1);
    assert_eq!(outcome.status, Status::OutOfFuel);
    assert_eq!(outcome.tape[0], b'x');
    assert!(outcome.output.is_empty());
}

#[test]
fn input_is_read_in_order() {
    let outcome = run(&program(",>,>,<<.>.>."), b"abc", 100);
    assert_eq!(outcome.status, Status::Finished);
    assert_eq!(outcome.output, b"abc".to_vec());
    assert_eq!(&outcome.tape[..4], &[b'a', b'b', b'c', 0]);
}

#[test]
fn end_of_input_stops_the_run_at_once() {
    let outcome = run(&program("+.,+."), b"", 100);
    assert_eq!(outcome.status, Status::EndOfInput);
    assert_eq!(outcome.output, vec![1]);
    assert_eq!(outcome.tape[0], 1);
}

#[test]
fn commands_are_appended_in_order() {
    let mut out = vec![Command::Read];
    normalize_into(Token::LArrow, &mut out);
    normalize_into(Token::Ident, &mut out);
    normalize_into(Token::DotDot, &mut out);
    assert_eq!(
        out,
        vec![Command::Read, Command::MoveLeft, Command::Dec, Command::Write, Command::Write]
    );
}

#[test]
fn commands_become_nodes() {
    assert_eq!(
        lower_commands(&vec![Command::Inc, Command::Read], at(3)),
        Ok(vec![Node::Op(Command::Inc), Node::Op(Command::Read)])
    );
    assert_eq!(lower_commands(&Vec::new(), at(3)), Ok(Vec::new()));
    assert_eq!(
        lower_commands(&vec![Command::Inc, Command::LoopClose], at(3)),
        Err(CompileError::UnmatchedBracket(at(3)))
    );
    assert_eq!(
        lower_commands(&vec![Command::LoopOpen], at(5)),
        Err(CompileError::UnmatchedBracket(at(5)))
    );
}

#[test]
fn errors_name_place_and_construct() {
    let e = CompileError::UnsupportedConstruct(at(4), Construct::Sequence);
    assert_eq!(e.span(), Span { lo: 4, hi: 5 });
    assert_eq!(CompileError::UnmatchedBracket(at(9)).span(), at(9));
    assert_eq!(Construct::Sequence.description(), "sequences unsupported");
}

#[test]
fn pointer_stays_on_the_tape_at_every_step() {
    let src = format!("{}+[<+]{}-[>-]", "<".repeat(5), ">".repeat(30_010));
    let p = program(&src);
    let mut m = Machine::new(&p);
    let mut steps = 0;
    while steps < 200_000 {
        assert!(m.pointer() < 30_000);
        assert!(m.is_valid());
        if m.step() == Action::Halt {
            break;
        }
        steps += 1;
    }
    assert_eq!(m.peek(), Action::Halt);
    assert_eq!(m.pointer(), 29_999);
}
