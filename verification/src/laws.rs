//! What holds of compilation and execution as a whole.

use vstd::prelude::*;
use crate::command::{decompose, is_inert, Command};
use crate::machine::{
    cell_after, initial, next_action, next_state, state_on, Action, Frame, IoEvent, State,
    TAPE_LEN,
};
use crate::run::{run_from, run_spec, Run};
use crate::token::{BinOp, Delim, Span, Token, TokenTree};
use crate::tree::{compile_spec, compile_tree_spec, join, lower, Ast, CompileError};

verus! {

/// Compiling and then running: the outcome of the run, or the reason why
/// nothing was compiled.
pub open spec fn compile_and_run(tts: Seq<TokenTree>, input: Seq<u8>, fuel: nat) -> Result<
    Run,
    CompileError,
> {
    match compile_spec(tts) {
        Ok(program) => Ok(run_spec(program, input, fuel)),
        Err(e) => Err(e),
    }
}

/// Compilation goes member by member: a sequence in two parts compiles to
/// the compilations of the parts, one after the other.
pub proof fn lemma_compile_concat(a: Seq<TokenTree>, b: Seq<TokenTree>)
    ensures
        compile_spec(a + b) == join(compile_spec(a), compile_spec(b)),
    decreases b.len(),
{
    if b.len() == 0 {
        assert(a + b =~= a);
        match compile_spec(a) {
            Ok(x) => {
                assert(x + Seq::<Ast>::empty() =~= x);
            },
            Err(_) => {},
        }
    } else {
        assert((a + b).drop_last() =~= a + b.drop_last());
        assert((a + b).last() == b.last());
        lemma_compile_concat(a, b.drop_last());
        match (compile_spec(a), compile_spec(b.drop_last()), compile_tree_spec(b.last())) {
            (Ok(x), Ok(y), Ok(z)) => {
                assert((x + y) + z =~= x + (y + z));
            },
            _ => {},
        }
    }
}

/// A sequence of one member compiles as that member does.
pub proof fn lemma_compile_single(tt: TokenTree)
    ensures
        compile_spec(seq![tt]) == compile_tree_spec(tt),
{
    let s = seq![tt];
    assert(s.drop_last() =~= Seq::<TokenTree>::empty());
    assert(s.last() == tt);
    assert(compile_spec(s.drop_last()) == Ok::<Seq<Ast>, CompileError>(Seq::empty()));
    match compile_tree_spec(tt) {
        Ok(x) => {
            assert(Seq::<Ast>::empty() + x =~= x);
        },
        Err(_) => {},
    }
}

/// A filler is a single token that spells no command.
pub open spec fn is_filler(tt: TokenTree) -> bool {
    match tt {
        TokenTree::Token(_, tok) => is_inert(tok),
        _ => false,
    }
}

/// The sequence without its fillers, the rest in order.
pub open spec fn without_filler(tts: Seq<TokenTree>) -> Seq<TokenTree>
    decreases tts.len(),
{
    if tts.len() == 0 {
        Seq::empty()
    } else if is_filler(tts.last()) {
        without_filler(tts.drop_last())
    } else {
        without_filler(tts.drop_last()).push(tts.last())
    }
}

/// A filler compiles to nothing.
pub proof fn lemma_filler_compiles_to_nothing(tt: TokenTree)
    requires
        is_filler(tt),
    ensures
        compile_tree_spec(tt) == Ok::<Seq<Ast>, CompileError>(Seq::empty()),
{
    match tt {
        TokenTree::Token(span, tok) => {
            assert(lower(decompose(tok), span).unwrap() =~= Seq::<Ast>::empty());
        },
        _ => {},
    }
}

/// Fillers are transparent: a token sequence and the same sequence without
/// its fillers compile alike, to the same program or to the same error,
/// and so run alike on every input.
pub proof fn lemma_filler_is_transparent(tts: Seq<TokenTree>, input: Seq<u8>, fuel: nat)
    ensures
        compile_spec(without_filler(tts)) == compile_spec(tts),
        compile_and_run(without_filler(tts), input, fuel) == compile_and_run(tts, input, fuel),
    decreases tts.len(),
{
    if tts.len() > 0 {
        let front = tts.drop_last();
        lemma_filler_is_transparent(front, input, fuel);
        if is_filler(tts.last()) {
            lemma_filler_compiles_to_nothing(tts.last());
            match compile_spec(front) {
                Ok(x) => {
                    assert(x + Seq::<Ast>::empty() =~= x);
                },
                Err(_) => {},
            }
        } else {
            let kept = without_filler(front).push(tts.last());
            assert(kept.drop_last() =~= without_filler(front));
            assert(kept.last() == tts.last());
        }
    }
}

/// A filler put anywhere into a token sequence changes nothing of what the
/// sequence compiles to.
pub proof fn lemma_inserted_filler_is_transparent(
    before: Seq<TokenTree>,
    filler: TokenTree,
    after: Seq<TokenTree>,
)
    requires
        is_filler(filler),
    ensures
        compile_spec(before + seq![filler] + after) == compile_spec(before + after),
{
    lemma_compile_concat(before + seq![filler], after);
    lemma_compile_concat(before, seq![filler]);
    lemma_compile_concat(before, after);
    lemma_compile_single(filler);
    lemma_filler_compiles_to_nothing(filler);
    match compile_spec(before) {
        Ok(x) => {
            assert(x + Seq::<Ast>::empty() =~= x);
        },
        Err(_) => {},
    }
}

/// A group compiles by what its contents compile to: two groups of one
/// kind whose contents compile alike compile alike, wherever they
/// stand. So a filler is as transparent inside a group as outside.
pub proof fn lemma_group_compiles_by_contents(
    delim: Delim,
    at: Span,
    contents: Vec<TokenTree>,
    other_at: Span,
    other_contents: Vec<TokenTree>,
)
    requires
        compile_spec(contents@) == compile_spec(other_contents@),
    ensures
        compile_tree_spec(TokenTree::Delimited(at, delim, contents)) == compile_tree_spec(
            TokenTree::Delimited(other_at, delim, other_contents),
        ),
{
}

/// The single-character token that a shift repeats.
pub open spec fn shift_half(op: BinOp) -> Token {
    match op {
        BinOp::Shl => Token::Lt,
        _ => Token::Gt,
    }
}

/// A shift token stands for its single character written twice: `<<` spells
/// what `<` `<` spell, `>>` what `>` `>` spell, and in any surroundings the
/// one compiles as the other, so both run alike.
pub proof fn lemma_shift_is_double_move(
    before: Seq<TokenTree>,
    after: Seq<TokenTree>,
    op: BinOp,
    at: Span,
    first: Span,
    second: Span,
)
    requires
        op is Shl || op is Shr,
    ensures
        decompose(Token::BinOp(op)) == decompose(shift_half(op)) + decompose(shift_half(op)),
        compile_spec(before + seq![TokenTree::Token(at, Token::BinOp(op))] + after) == compile_spec(
            before + seq![
                TokenTree::Token(first, shift_half(op)),
                TokenTree::Token(second, shift_half(op)),
            ] + after,
        ),
{
    let half = shift_half(op);
    let whole = TokenTree::Token(at, Token::BinOp(op));
    let one = TokenTree::Token(first, half);
    let two = TokenTree::Token(second, half);
    assert(decompose(Token::BinOp(op)) =~= decompose(half) + decompose(half));
    lemma_compile_concat(before + seq![whole], after);
    lemma_compile_concat(before, seq![whole]);
    lemma_compile_concat(before + seq![one, two], after);
    lemma_compile_concat(before, seq![one, two]);
    lemma_compile_single(whole);
    assert(seq![one, two] =~= seq![one] + seq![two]);
    lemma_compile_concat(seq![one], seq![two]);
    lemma_compile_single(one);
    lemma_compile_single(two);
    assert(lower(decompose(Token::BinOp(op)), at).unwrap() =~= lower(decompose(half), first).unwrap()
        + lower(decompose(half), second).unwrap());
}

/// Counting wraps around: one up from 255 is 0, one down from 0 is 255,
/// and in general the cell moves by one modulo 256.
pub proof fn lemma_cells_wrap(cell: u8)
    ensures
        cell_after(Command::Inc, cell) == (cell + 1) % 256,
        cell_after(Command::Dec, cell) == (cell + 255) % 256,
        cell_after(Command::Inc, 255) == 0,
        cell_after(Command::Dec, 0) == 255,
{
}

/// The state after `n` steps, none of which is fed a byte.
pub open spec fn after_steps(s: State, n: nat) -> State
    decreases n,
{
    if n == 0 {
        s
    } else {
        after_steps(next_state(s), (n - 1) as nat)
    }
}

/// Steps add up.
pub proof fn lemma_steps_add(s: State, a: nat, b: nat)
    ensures
        after_steps(s, a + b) == after_steps(after_steps(s, a), b),
    decreases a,
{
    if a > 0 {
        lemma_steps_add(next_state(s), (a - 1) as nat, b);
    }
}

/// Every execution starts in a valid state, whatever the program.
pub proof fn lemma_initial_is_valid(program: Seq<Ast>)
    ensures
        initial(program).wf(),
        initial(program).ptr == 0,
        forall|i: int| 0 <= i < TAPE_LEN ==> initial(program).tape[i] == 0,
{
}

/// Every step, and every event handed in, leads from a valid state to a
/// valid state: the pointer never leaves the tape.
pub proof fn lemma_transitions_keep_validity(s: State)
    requires
        s.wf(),
    ensures
        next_state(s).wf(),
        0 <= next_state(s).ptr < TAPE_LEN,
        forall|event: IoEvent| #[trigger]
            state_on(s, event).wf() && 0 <= state_on(s, event).ptr < TAPE_LEN,
{
}

/// The pointer stays on the tape, whatever the program and however long
/// it runs.
pub proof fn lemma_pointer_stays_on_tape(s: State, n: nat)
    requires
        s.wf(),
    ensures
        after_steps(s, n).wf(),
        0 <= after_steps(s, n).ptr < TAPE_LEN,
    decreases n,
{
    if n > 0 {
        lemma_pointer_stays_on_tape(next_state(s), (n - 1) as nat);
    }
}

/// A run from a valid state leaves a tape of full length, however it ends.
pub proof fn lemma_run_keeps_tape(s: State, input: Seq<u8>, output: Seq<u8>, fuel: nat)
    requires
        s.wf(),
    ensures
        run_from(s, input, output, fuel).tape.len() == TAPE_LEN,
    decreases fuel,
{
    if fuel > 0 {
        match next_action(s) {
            Action::Halt => {},
            Action::Read => {
                if input.len() > 0 {
                    lemma_run_keeps_tape(
                        s.fed(input[0]),
                        input.drop_first(),
                        output,
                        (fuel - 1) as nat,
                    );
                }
            },
            Action::Write(byte) => {
                lemma_run_keeps_tape(next_state(s), input, output.push(byte), (fuel - 1) as nat);
            },
            Action::Continue => {
                lemma_run_keeps_tape(next_state(s), input, output, (fuel - 1) as nat);
            },
        }
    }
}

/// The bound on steps only cuts a run short: a run that ended within its
/// fuel ends the same way with any more fuel.
pub proof fn lemma_more_fuel_same_outcome(
    s: State,
    input: Seq<u8>,
    output: Seq<u8>,
    fuel: nat,
    more: nat,
)
    requires
        !(run_from(s, input, output, fuel).status is OutOfFuel),
    ensures
        run_from(s, input, output, fuel + more) == run_from(s, input, output, fuel),
    decreases fuel,
{
    if fuel > 0 {
        let less = (fuel - 1) as nat;
        assert((fuel + more - 1) as nat == less + more);
        match next_action(s) {
            Action::Halt => {},
            Action::Read => {
                if input.len() > 0 {
                    lemma_more_fuel_same_outcome(
                        s.fed(input[0]),
                        input.drop_first(),
                        output,
                        less,
                        more,
                    );
                }
            },
            Action::Write(byte) => {
                lemma_more_fuel_same_outcome(next_state(s), input, output.push(byte), less, more);
            },
            Action::Continue => {
                lemma_more_fuel_same_outcome(next_state(s), input, output, less, more);
            },
        }
    }
}

/// A loop that finds its cell at zero is passed over in one step: the body
/// is not entered, and tape and pointer stay as they are.
pub proof fn lemma_loop_on_zero_is_skipped(s: State)
    requires
        s.wf(),
        !s.at_end(),
        s.current() is Loop,
        s.cell() == 0,
    ensures
        next_action(s) == Action::Continue,
        next_state(s) == (State { tape: s.tape, ptr: s.ptr, frames: s.advanced() }),
{
}

/// The stack of a machine that runs the loop at which `s` stands, with the
/// loop's body done up to `pc`.
pub open spec fn inside_loop(s: State, body: Seq<Ast>, pc: int) -> Seq<Frame> {
    s.advanced().push(Frame { body: body, pc: pc })
}

/// What it means for a loop body to count its cell down: started on a
/// nonzero cell under the pointer of `s`, it reaches its end after `k`
/// steps with the pointer back in place and that cell one lower.
pub open spec fn body_counts_down(s: State, body: Seq<Ast>, k: nat) -> bool {
    forall|t: State|
        t.wf() && t.frames == inside_loop(s, body, 0) && t.ptr == s.ptr && t.cell() != 0 ==> {
            let u = #[trigger] after_steps(t, k);
            &&& u.frames == inside_loop(s, body, body.len() as int)
            &&& u.ptr == s.ptr
            &&& u.cell() == t.cell() - 1
        }
}

/// The step at which round `j` of the loop starts, when each round takes
/// `k` steps and one more for the test.
pub open spec fn round_start(j: nat, k: nat) -> nat {
    1 + j * (k + 1)
}

proof fn lemma_round_start_next(j: nat, k: nat)
    ensures
        round_start(j + 1, k) == round_start(j, k) + k + 1,
{
    assert((j + 1) * (k + 1) == j * (k + 1) + k + 1) by (nonlinear_arith);
}

proof fn lemma_rounds(s: State, body: Seq<Ast>, k: nat, j: nat)
    requires
        s.wf(),
        !s.at_end(),
        s.current() == Ast::Loop(body),
        body_counts_down(s, body, k),
        j < s.cell(),
    ensures
        after_steps(s, round_start(j, k)).wf(),
        after_steps(s, round_start(j, k)).frames == inside_loop(s, body, 0),
        after_steps(s, round_start(j, k)).ptr == s.ptr,
        after_steps(s, round_start(j, k)).cell() == s.cell() - j,
    decreases j,
{
    if j == 0 {
        assert(round_start(0, k) == 1) by (nonlinear_arith);
        assert(after_steps(s, 1) == after_steps(next_state(s), 0));
    } else {
        let prev = (j - 1) as nat;
        lemma_rounds(s, body, k, prev);
        lemma_round_start_next(prev, k);
        let t = after_steps(s, round_start(prev, k));
        let u = after_steps(t, k);
        lemma_pointer_stays_on_tape(t, k);
        lemma_steps_add(s, round_start(prev, k), k);
        lemma_steps_add(s, round_start(prev, k) + k, 1);
        assert(after_steps(u, 1) == after_steps(next_state(u), 0));
        assert(u.frames.last() == Frame { body: body, pc: body.len() as int });
        assert(next_state(u).frames =~= inside_loop(s, body, 0));
    }
}

/// A loop whose body counts its cell down runs as many rounds as the cell
/// holds on entry. With `v` in the cell and `k` steps to a round, round
/// `j` starts at step `1 + j * (k + 1)` with `v - j` in the cell, for each
/// `j` below `v`; `1 + v * (k + 1)` steps after entry the machine stands
/// behind the loop, the pointer in place and the cell at zero.
pub proof fn lemma_counting_loop_runs_cell_times(s: State, body: Seq<Ast>, k: nat)
    requires
        s.wf(),
        !s.at_end(),
        s.current() == Ast::Loop(body),
        body_counts_down(s, body, k),
    ensures
        forall|j: nat|
            j < s.cell() ==> {
                let t = #[trigger] after_steps(s, round_start(j, k));
                &&& t.frames == inside_loop(s, body, 0)
                &&& t.ptr == s.ptr
                &&& t.cell() == s.cell() - j
            },
        after_steps(s, round_start(s.cell() as nat, k)).frames == s.advanced(),
        after_steps(s, round_start(s.cell() as nat, k)).ptr == s.ptr,
        after_steps(s, round_start(s.cell() as nat, k)).cell() == 0,
{
    let v = s.cell() as nat;
    assert forall|j: nat| j < s.cell() implies {
        let t = #[trigger] after_steps(s, round_start(j, k));
        &&& t.frames == inside_loop(s, body, 0)
        &&& t.ptr == s.ptr
        &&& t.cell() == s.cell() - j
    } by {
        lemma_rounds(s, body, k, j);
    }
    if v == 0 {
        assert(round_start(0, k) == 1) by (nonlinear_arith);
        assert(after_steps(s, 1) == after_steps(next_state(s), 0));
    } else {
        let prev = (v - 1) as nat;
        lemma_rounds(s, body, k, prev);
        lemma_round_start_next(prev, k);
        let t = after_steps(s, round_start(prev, k));
        let u = after_steps(t, k);
        lemma_pointer_stays_on_tape(t, k);
        lemma_steps_add(s, round_start(prev, k), k);
        lemma_steps_add(s, round_start(prev, k) + k, 1);
        assert(after_steps(u, 1) == after_steps(next_state(u), 0));
        assert(u.frames.last() == Frame { body: body, pc: body.len() as int });
        assert(next_state(u).frames =~= s.advanced());
    }
}

/// The body of the loop `[-]` counts its cell down, in one step.
pub proof fn lemma_decrement_counts_down(s: State)
    requires
        s.wf(),
    ensures
        body_counts_down(s, seq![Ast::Op(Command::Dec)], 1),
{
    let body = seq![Ast::Op(Command::Dec)];
    assert forall|t: State|
        t.wf() && t.frames == inside_loop(s, body, 0) && t.ptr == s.ptr && t.cell() != 0 implies {
        let u = #[trigger] after_steps(t, 1);
        &&& u.frames == inside_loop(s, body, body.len() as int)
        &&& u.ptr == s.ptr
        &&& u.cell() == t.cell() - 1
    } by {
        assert(after_steps(t, 1) == after_steps(next_state(t), 0));
        assert(t.frames.last() == Frame { body: body, pc: 0 });
        assert(t.current() == Ast::Op(Command::Dec));
        assert(next_state(t).frames =~= inside_loop(s, body, 1));
    }
}

} // verus!
