//! What a program means: the state of the interpreter as plain values, one
//! instruction as a step from state to state, and a run as steps taken one
//! after another until the program ends, a bracket has no partner, or the
//! budget is spent.
use vstd::prelude::*;
use crate::brackets::{close_of, has_close, has_open, open_of};
use crate::cell::{decrement, glyph, increment};

verus! {

/// The position to the left of `pointer` on a circular tape of `length`
/// cells.
pub open spec fn left_of(pointer: nat, length: nat) -> nat {
    if pointer == 0 {
        (length - 1) as nat
    } else {
        (pointer - 1) as nat
    }
}

/// The position to the right of `pointer` on a circular tape of `length`
/// cells.
pub open spec fn right_of(pointer: nat, length: nat) -> nat {
    if pointer == length - 1 {
        0
    } else {
        pointer + 1
    }
}

/// The tape is a circle: left of the first cell lies the last one, right of
/// the last cell lies the first one. A move from a position on the tape ends
/// on the tape, and a move one way undoes a move the other way.
pub proof fn lemma_pointer_moves_wrap(pointer: nat, length: nat)
    requires
        pointer < length,
    ensures
        left_of(0, length) == length - 1,
        right_of((length - 1) as nat, length) == 0,
        left_of(pointer, length) < length,
        right_of(pointer, length) < length,
        left_of(pointer, length) == (pointer + length - 1) % (length as int),
        right_of(pointer, length) == (pointer + 1) % length,
        right_of(left_of(pointer, length), length) == pointer,
        left_of(right_of(pointer, length), length) == pointer,
{
    let n = length as int;
    if pointer == 0 {
        assert((n - 1) % n == n - 1) by {
            vstd::arithmetic::div_mod::lemma_small_mod((n - 1) as nat, length);
        }
    } else {
        assert((pointer + n - 1) % n == pointer - 1) by {
            vstd::arithmetic::div_mod::lemma_mod_add_multiples_vanish(pointer - 1, n);
            vstd::arithmetic::div_mod::lemma_small_mod((pointer - 1) as nat, length);
        }
    }
    if pointer == n - 1 {
        assert((pointer + 1) % length == 0) by {
            vstd::arithmetic::div_mod::lemma_mod_self_0(n);
        }
    } else {
        assert((pointer + 1) % length == pointer + 1) by {
            vstd::arithmetic::div_mod::lemma_small_mod(pointer + 1, length);
        }
    }
}

/// The state of the interpreter.
pub struct Machine {
    /// The values of the cells, first cell first.
    pub tape: Seq<u8>,
    /// The position of the current cell.
    pub pointer: nat,
    /// The input bytes not yet read, next byte first.
    pub input: Seq<u8>,
    /// The position in the program of the next instruction.
    pub counter: nat,
}

impl Machine {
    /// The state before anything has run: `size` cells of zero, the pointer
    /// on the first of them, all of `input` still to read, the counter at the
    /// start of the program.
    pub open spec fn fresh(size: nat, input: Seq<u8>) -> Machine {
        Machine { tape: Seq::new(size, |i: int| 0u8), pointer: 0, input, counter: 0 }
    }

    /// The pointer is on the tape. A tape without cells has no valid state.
    pub open spec fn valid(self) -> bool {
        self.pointer < self.tape.len()
    }

    /// The value of the current cell.
    pub open spec fn cell(self) -> u8 {
        self.tape[self.pointer as int]
    }

    /// This state with `value` in the current cell.
    pub open spec fn store(self, value: u8) -> Machine {
        Machine { tape: self.tape.update(self.pointer as int, value), ..self }
    }

    /// This state with the pointer one cell to the left, around the end.
    pub open spec fn moved_left(self) -> Machine {
        Machine { pointer: left_of(self.pointer, self.tape.len()), ..self }
    }

    /// This state with the pointer one cell to the right, around the end.
    pub open spec fn moved_right(self) -> Machine {
        Machine { pointer: right_of(self.pointer, self.tape.len()), ..self }
    }

    /// This state after a read: the next input byte has moved into the
    /// current cell, or a zero where no input is left.
    pub open spec fn fed(self) -> Machine {
        if self.input.len() > 0 {
            Machine { input: self.input.drop_first(), ..self.store(self.input[0]) }
        } else {
            self.store(0)
        }
    }

    /// This state with the counter at `counter`.
    pub open spec fn at(self, counter: nat) -> Machine {
        Machine { counter, ..self }
    }

    /// This state after a `[`. On a zero cell the counter moves to the
    /// partner that a forward scan finds, or to the end of the program where
    /// there is none; on any other cell nothing changes.
    pub open spec fn skipped(self, program: Seq<char>) -> Machine {
        if self.cell() != 0 {
            self
        } else if has_close(program, self.counter as int) {
            self.at(close_of(program, self.counter as int) as nat)
        } else {
            self.at(program.len())
        }
    }

    /// This state after a `]`. On a cell that is not zero the counter moves
    /// to the partner that a backward scan finds, or to the start of the
    /// program where there is none; on a zero cell nothing changes.
    pub open spec fn repeated(self, program: Seq<char>) -> Machine {
        if self.cell() == 0 {
            self
        } else if has_open(program, self.counter as int) {
            self.at(open_of(program, self.counter as int) as nat)
        } else {
            self.at(0)
        }
    }
}

/// Why a run stopped short of the end of the program.
pub enum Fault {
    /// A `[` on a zero cell with no partner after it.
    UnmatchedOpen,
    /// A `]` on a cell that is not zero with no partner before it.
    UnmatchedClose,
    /// The budget was spent before the program ended.
    StepLimit,
}

/// What one instruction does.
pub enum Step {
    /// The instruction was carried out: the state after it, the counter
    /// already on the next instruction, and what it printed.
    Next { machine: Machine, printed: Seq<char> },
    /// The instruction was a jump whose bracket has no partner: the state
    /// in which the scan gave up.
    Stuck { machine: Machine, fault: Fault },
}

/// The state `machine` with the counter moved on by one, and nothing
/// printed.
pub open spec fn quiet(machine: Machine) -> Step {
    Step::Next { machine: machine.at(machine.counter + 1), printed: Seq::empty() }
}

/// The instruction at the counter of `machine`, carried out. Any character
/// that is not one of the eight instructions does nothing.
pub open spec fn step(machine: Machine, program: Seq<char>) -> Step
    recommends
        machine.valid(),
        machine.counter < program.len(),
{
    let instruction = program[machine.counter as int];
    if instruction == '+' {
        quiet(machine.store(increment(machine.cell())))
    } else if instruction == '-' {
        quiet(machine.store(decrement(machine.cell())))
    } else if instruction == '<' {
        quiet(machine.moved_left())
    } else if instruction == '>' {
        quiet(machine.moved_right())
    } else if instruction == '.' {
        Step::Next {
            machine: machine.at(machine.counter + 1),
            printed: seq![glyph(machine.cell())],
        }
    } else if instruction == ',' {
        quiet(machine.fed())
    } else if instruction == '[' {
        if machine.cell() == 0 && !has_close(program, machine.counter as int) {
            Step::Stuck { machine: machine.skipped(program), fault: Fault::UnmatchedOpen }
        } else {
            quiet(machine.skipped(program))
        }
    } else if instruction == ']' {
        if machine.cell() != 0 && !has_open(program, machine.counter as int) {
            Step::Stuck { machine: machine.repeated(program), fault: Fault::UnmatchedClose }
        } else {
            quiet(machine.repeated(program))
        }
    } else {
        quiet(machine)
    }
}

/// How a run ended.
pub struct Run {
    /// The state in which it ended.
    pub machine: Machine,
    /// What it printed, where it reached the end of the program; else why it
    /// stopped.
    pub verdict: Result<Seq<char>, Fault>,
}

/// A run from `machine` that may carry out at most `budget` instructions and
/// has printed `printed` so far.
///
/// With the counter at or past the end of the program the run is over and
/// gives what was printed. Else, with nothing left of the budget, it stops
/// there at the step limit and what was printed is lost. Else it carries out
/// one instruction and goes on from the state after it, unless that
/// instruction is a bracket without a partner.
pub open spec fn execute(machine: Machine, program: Seq<char>, budget: nat, printed: Seq<char>) -> Run
    decreases budget,
{
    if machine.counter >= program.len() {
        Run { machine, verdict: Ok(printed) }
    } else if budget == 0 {
        Run { machine, verdict: Err(Fault::StepLimit) }
    } else {
        match step(machine, program) {
            Step::Next { machine: next, printed: more } => execute(
                next,
                program,
                (budget - 1) as nat,
                printed + more,
            ),
            Step::Stuck { machine: stuck, fault } => Run { machine: stuck, verdict: Err(fault) },
        }
    }
}

/// A run of `program` from `machine` under `budget`, with nothing printed
/// yet.
pub open spec fn run_of(machine: Machine, program: Seq<char>, budget: nat) -> Run {
    execute(machine, program, budget, Seq::empty())
}

/// One instruction leaves the tape as long as it was and the pointer on it.
pub proof fn lemma_step_keeps_shape(machine: Machine, program: Seq<char>)
    requires
        machine.valid(),
    ensures
        match step(machine, program) {
            Step::Next { machine: next, .. } => next.valid() && next.tape.len()
                == machine.tape.len(),
            Step::Stuck { machine: stuck, .. } => stuck.valid() && stuck.tape.len()
                == machine.tape.len(),
        },
{
}

/// A run leaves the tape as long as it was and the pointer on it.
pub proof fn lemma_run_keeps_shape(
    machine: Machine,
    program: Seq<char>,
    budget: nat,
    printed: Seq<char>,
)
    requires
        machine.valid(),
    ensures
        execute(machine, program, budget, printed).machine.valid(),
        execute(machine, program, budget, printed).machine.tape.len() == machine.tape.len(),
    decreases budget,
{
    if machine.counter < program.len() && budget > 0 {
        lemma_step_keeps_shape(machine, program);
        match step(machine, program) {
            Step::Next { machine: next, printed: more } => {
                lemma_run_keeps_shape(next, program, (budget - 1) as nat, printed + more);
            },
            Step::Stuck { .. } => {},
        }
    }
}

/// A run that printed its output ended with the counter at or past the end
/// of the program, and what it printed starts with what had been printed
/// before it.
pub proof fn lemma_finished_run(
    machine: Machine,
    program: Seq<char>,
    budget: nat,
    printed: Seq<char>,
)
    requires
        execute(machine, program, budget, printed).verdict is Ok,
    ensures
        execute(machine, program, budget, printed).machine.counter >= program.len(),
        printed.is_prefix_of(execute(machine, program, budget, printed).verdict->Ok_0),
    decreases budget,
{
    if machine.counter < program.len() && budget > 0 {
        match step(machine, program) {
            Step::Next { machine: next, printed: more } => {
                lemma_finished_run(next, program, (budget - 1) as nat, printed + more);
            },
            Step::Stuck { .. } => {},
        }
    }
}

/// The budget decides only whether a run is cut short. A run that did not
/// stop at the step limit ends in the same state, with the same output or
/// the same fault, under every larger budget.
pub proof fn lemma_larger_budget_same_run(
    machine: Machine,
    program: Seq<char>,
    small: nat,
    large: nat,
    printed: Seq<char>,
)
    requires
        small <= large,
        execute(machine, program, small, printed).verdict != Err::<Seq<char>, Fault>(
            Fault::StepLimit,
        ),
    ensures
        execute(machine, program, large, printed) == execute(machine, program, small, printed),
    decreases small,
{
    if machine.counter < program.len() && small > 0 {
        match step(machine, program) {
            Step::Next { machine: next, printed: more } => {
                lemma_larger_budget_same_run(
                    next,
                    program,
                    (small - 1) as nat,
                    (large - 1) as nat,
                    printed + more,
                );
            },
            Step::Stuck { .. } => {},
        }
    }
}

/// What a program prints on a fresh interpreter depends on the program, the
/// input and the size of the tape alone: two runs of one program from fresh
/// states with the same tape size and input, under any two budgets, that
/// both reach the end of the program, print the same and end in the same
/// state.
pub proof fn lemma_fresh_runs_agree(
    size: nat,
    input: Seq<u8>,
    program: Seq<char>,
    one: nat,
    other: nat,
)
    requires
        run_of(Machine::fresh(size, input), program, one).verdict is Ok,
        run_of(Machine::fresh(size, input), program, other).verdict is Ok,
    ensures
        run_of(Machine::fresh(size, input), program, one) == run_of(
            Machine::fresh(size, input),
            program,
            other,
        ),
{
    let fresh = Machine::fresh(size, input);
    if one <= other {
        lemma_larger_budget_same_run(fresh, program, one, other, Seq::empty());
    } else {
        lemma_larger_budget_same_run(fresh, program, other, one, Seq::empty());
    }
}

/// A run is not a thing to repeat: the state is kept, the counter with it.
/// After a run that reached the end of a program, a second run of that
/// program carries out nothing, prints nothing and changes nothing, whatever
/// its budget.
pub proof fn lemma_second_run_is_idle(
    machine: Machine,
    program: Seq<char>,
    first: nat,
    second: nat,
)
    requires
        run_of(machine, program, first).verdict is Ok,
    ensures
        run_of(run_of(machine, program, first).machine, program, second) == (Run {
            machine: run_of(machine, program, first).machine,
            verdict: Ok(Seq::empty()),
        }),
{
    lemma_finished_run(machine, program, first, Seq::empty());
}

/// What had been printed before a run decides neither where the run ends nor
/// whether it fails and how.
pub proof fn lemma_verdict_kind_ignores_printed(
    machine: Machine,
    program: Seq<char>,
    budget: nat,
    one: Seq<char>,
    other: Seq<char>,
)
    ensures
        execute(machine, program, budget, one).machine == execute(
            machine,
            program,
            budget,
            other,
        ).machine,
        execute(machine, program, budget, one).verdict is Ok <==> execute(
            machine,
            program,
            budget,
            other,
        ).verdict is Ok,
        execute(machine, program, budget, one).verdict matches Err(fault) ==> execute(
            machine,
            program,
            budget,
            other,
        ).verdict == Err::<Seq<char>, Fault>(fault),
    decreases budget,
{
    if machine.counter < program.len() && budget > 0 {
        match step(machine, program) {
            Step::Next { machine: next, printed: more } => {
                lemma_verdict_kind_ignores_printed(
                    next,
                    program,
                    (budget - 1) as nat,
                    one + more,
                    other + more,
                );
            },
            Step::Stuck { .. } => {},
        }
    }
}

/// The number of instructions that a run from `machine` under `budget`
/// carries out. A jump that finds no partner is not carried out.
pub open spec fn steps_taken(machine: Machine, program: Seq<char>, budget: nat) -> nat
    decreases budget,
{
    if machine.counter >= program.len() || budget == 0 {
        0
    } else {
        match step(machine, program) {
            Step::Next { machine: next, .. } => 1 + steps_taken(
                next,
                program,
                (budget - 1) as nat,
            ),
            Step::Stuck { .. } => 0,
        }
    }
}

/// No run carries out more instructions than its budget, and a run that
/// stops at the step limit has carried out exactly as many.
pub proof fn lemma_step_limit_spends_the_budget(
    machine: Machine,
    program: Seq<char>,
    budget: nat,
    printed: Seq<char>,
)
    ensures
        steps_taken(machine, program, budget) <= budget,
        execute(machine, program, budget, printed).verdict == Err::<Seq<char>, Fault>(
            Fault::StepLimit,
        ) ==> steps_taken(machine, program, budget) == budget,
    decreases budget,
{
    if machine.counter < program.len() && budget > 0 {
        match step(machine, program) {
            Step::Next { machine: next, printed: more } => {
                lemma_step_limit_spends_the_budget(
                    next,
                    program,
                    (budget - 1) as nat,
                    printed + more,
                );
            },
            Step::Stuck { .. } => {},
        }
    }
}

/// A run that stopped at the step limit can be taken up again: a second run
/// from where it stopped, under a budget of `more`, ends in the state in
/// which one run under both budgets together would have ended, and reaches
/// the end of the program if and only if that run would. The output of the
/// first run is lost.
pub proof fn lemma_cut_run_resumes(
    machine: Machine,
    program: Seq<char>,
    spent: nat,
    more: nat,
    printed: Seq<char>,
)
    requires
        execute(machine, program, spent, printed).verdict == Err::<Seq<char>, Fault>(
            Fault::StepLimit,
        ),
    ensures
        execute(machine, program, spent + more, printed).machine == run_of(
            execute(machine, program, spent, printed).machine,
            program,
            more,
        ).machine,
        execute(machine, program, spent + more, printed).verdict is Ok <==> run_of(
            execute(machine, program, spent, printed).machine,
            program,
            more,
        ).verdict is Ok,
    decreases spent,
{
    if machine.counter < program.len() {
        if spent > 0 {
            match step(machine, program) {
                Step::Next { machine: next, printed: more_printed } => {
                    lemma_cut_run_resumes(
                        next,
                        program,
                        (spent - 1) as nat,
                        more,
                        printed + more_printed,
                    );
                },
                Step::Stuck { .. } => {},
            }
        } else {
            lemma_verdict_kind_ignores_printed(machine, program, more, printed, Seq::empty());
        }
    }
}

} // verus!
