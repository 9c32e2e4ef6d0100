//! The interpreter itself.
use std::collections::VecDeque;
use vstd::prelude::*;
use vstd::string::{StringExecFns, StringSliceAdditionalSpecFns};
use crate::brackets::{
    backward_depth, close_of, closes, forward_depth, has_close, has_open, lemma_close_is_unique,
    lemma_nesting_first, lemma_open_is_unique, open_of, opens,
};
use crate::cell::{decrement, glyph, increment, Cell};
use crate::machine::{execute, run_of, Fault, Machine};
use crate::report::{
    message, reported, shown, step_limit_message, unmatched_close_message, unmatched_open_message,
};

verus! {

/// A Brainfuck interpreter: a circular tape of cells, a pointer to the
/// current cell, the input that programs read from, the program counter, and
/// the number of instructions that one run may carry out.
pub struct BrainFuck {
    memory: Vec<Cell>,
    pointer: usize,
    input: VecDeque<u8>,
    counter: usize,
    max_steps: usize,
}

impl View for BrainFuck {
    type V = Machine;

    closed spec fn view(&self) -> Machine {
        Machine {
            tape: self.memory@.map_values(|cell: Cell| cell@),
            pointer: self.pointer as nat,
            input: self.input@,
            counter: self.counter as nat,
        }
    }
}

/// The bytes of `input`, in order, as a queue to read from.
pub fn queue_from(input: &str) -> (queue: VecDeque<u8>)
    ensures
        queue@ == input.spec_bytes(),
{
    let bytes = input.as_bytes();
    let mut queue: VecDeque<u8> = VecDeque::new();
    let mut i: usize = 0;
    while i < bytes.len()
        invariant
            i <= bytes@.len(),
            queue@ == bytes@.take(i as int),
        decreases bytes@.len() - i,
    {
        queue.push_back(bytes[i]);
        i += 1;
        assert(bytes@.take(i as int) == bytes@.take(i - 1).push(bytes@[i - 1]));
    }
    queue
}

/// The characters of `program`, in order.
fn characters(program: &str) -> (list: Vec<char>)
    ensures
        list@ == program@,
{
    let mut list: Vec<char> = Vec::new();
    for c in it: program.chars()
        invariant
            list@ == it.seq().take(it.index() as int),
    {
        list.push(c);
    }
    list
}

impl BrainFuck {
    /// The number of instructions that one run may carry out.
    pub closed spec fn budget(&self) -> nat {
        self.max_steps as nat
    }

    /// The interpreter is in a state that it can run from: the pointer is on
    /// the tape.
    pub open spec fn wf(&self) -> bool {
        self@.valid()
    }

    /// An interpreter with `size` cells, all zero, the bytes of `input` to
    /// read, and a budget of `max_steps` instructions for each run.
    #[must_use]
    pub fn new(size: usize, input: &str, max_steps: usize) -> (engine: Self)
        requires
            size >= 1,
        ensures
            engine.wf(),
            engine@ == Machine::fresh(size as nat, input.spec_bytes()),
            engine.budget() == max_steps,
    {
        let engine = BrainFuck {
            memory: vec![Cell::from(0); size],
            pointer: 0,
            counter: 0,
            input: queue_from(input),
            max_steps,
        };
        assert(engine@.tape =~= Machine::fresh(size as nat, input.spec_bytes()).tape);
        engine
    }

    /// Runs `program` from the state that the interpreter is in, and leaves
    /// the interpreter in the state in which the run ended.
    ///
    /// The run carries out instructions from the counter on until the counter
    /// reaches the end of the program, and then returns what was printed. It
    /// fails, with a message and without what was printed so far, when a jump
    /// finds no partner for its bracket, and when the budget is spent before
    /// the end of the program. Each call has the whole budget; the tape, the
    /// pointer, the input left and the counter are kept from call to call.
    pub fn run(&mut self, program: &str) -> (result: Result<String, String>)
        requires
            old(self).wf(),
        ensures
            final(self).wf(),
            final(self)@.tape.len() == old(self)@.tape.len(),
            final(self).budget() == old(self).budget(),
            final(self)@ == run_of(old(self)@, program@, old(self).budget()).machine,
            shown(result) == reported(
                run_of(old(self)@, program@, old(self).budget()).verdict,
                old(self).budget(),
            ),
    {
        let mut output = String::new();
        let code: Vec<char> = characters(program);
        let mut steps: usize = 0;

        while self.counter < code.len()
            invariant
                code@ == program@,
                self.wf(),
                self@.tape.len() == old(self)@.tape.len(),
                self.budget() == old(self).budget(),
                steps <= self.max_steps,
                run_of(old(self)@, program@, old(self).budget()) == execute(
                    self@,
                    program@,
                    (self.max_steps - steps) as nat,
                    output@,
                ),
            decreases self.max_steps - steps,
        {
            if steps == self.max_steps {
                return Err(step_limit_message(self.max_steps));
            }
            let ch = code[self.counter];
            match ch {
                '+' => self.add(),
                '-' => self.sub(),
                '<' => self.left(),
                '>' => self.right(),
                '.' => output.append(self.print().as_str()),
                ',' => self.read(),
                '[' => {
                    match self.start(code.as_slice()) {
                        Ok(()) => {},
                        Err(words) => {
                            return Err(words);
                        },
                    }
                },
                ']' => {
                    match self.end(code.as_slice()) {
                        Ok(()) => {},
                        Err(words) => {
                            return Err(words);
                        },
                    }
                },
                _ => {},
            }
            self.counter += 1;
            steps += 1;
        }

        Ok(output)
    }

    /// Steps the current cell up by one.
    fn add(&mut self)
        requires
            old(self).wf(),
        ensures
            final(self)@ == old(self)@.store(increment(old(self)@.cell())),
            final(self).budget() == old(self).budget(),
    {
        self.memory[self.pointer].add();
        assert(self@.tape =~= old(self)@.store(increment(old(self)@.cell())).tape);
    }

    /// Steps the current cell down by one.
    fn sub(&mut self)
        requires
            old(self).wf(),
        ensures
            final(self)@ == old(self)@.store(decrement(old(self)@.cell())),
            final(self).budget() == old(self).budget(),
    {
        self.memory[self.pointer].sub();
        assert(self@.tape =~= old(self)@.store(decrement(old(self)@.cell())).tape);
    }

    /// Moves the pointer one cell to the left, from the first cell to the
    /// last.
    fn left(&mut self)
        requires
            old(self).wf(),
        ensures
            final(self)@ == old(self)@.moved_left(),
            final(self).budget() == old(self).budget(),
    {
        self.pointer = if self.pointer == 0 {
            self.memory.len() - 1
        } else {
            self.pointer - 1
        }
    }

    /// Moves the pointer one cell to the right, from the last cell to the
    /// first.
    fn right(&mut self)
        requires
            old(self).wf(),
        ensures
            final(self)@ == old(self)@.moved_right(),
            final(self).budget() == old(self).budget(),
    {
        self.pointer = if self.pointer == self.memory.len() - 1 {
            0
        } else {
            self.pointer + 1
        }
    }

    /// The current cell as printed.
    fn print(&self) -> (text: String)
        requires
            self.wf(),
        ensures
            text@ == seq![glyph(self@.cell())],
    {
        self.memory[self.pointer].to_string()
    }

    /// Moves the next input byte into the current cell, or a zero where no
    /// input is left.
    fn read(&mut self)
        requires
            old(self).wf(),
        ensures
            final(self)@ == old(self)@.fed(),
            final(self).budget() == old(self).budget(),
    {
        self.memory[self.pointer] = Cell::from(self.input.pop_front().unwrap_or(0));
        assert(self@.tape =~= old(self)@.fed().tape);
    }

    /// The jump of a `[`. On a zero cell the counter moves forward to the
    /// partner of the bracket at the counter, and the call fails, with the
    /// counter at the end of the program, where there is none. On any other
    /// cell nothing happens.
    fn start(&mut self, program: &[char]) -> (result: Result<(), String>)
        requires
            old(self).wf(),
            old(self)@.counter < program@.len(),
        ensures
            final(self)@ == old(self)@.skipped(program@),
            final(self).budget() == old(self).budget(),
            result is Err <==> old(self)@.cell() == 0 && !has_close(
                program@,
                old(self)@.counter as int,
            ),
            result matches Err(words) ==> words@ == message(
                Fault::UnmatchedOpen,
                old(self).budget(),
            ),
    {
        if self.memory[self.pointer] == Cell::from(0) {
            let ghost origin = self.counter as int;
            let length = program.len();
            let mut level: usize = 1;
            while level > 0
                invariant
                    old(self)@.cell() == 0,
                    origin <= self.counter < length == program@.len(),
                    level == forward_depth(program@, origin, self.counter as int),
                    level <= self.counter - origin + 1,
                    forall|k: int|
                        origin < k < self.counter ==> forward_depth(program@, origin, k) > 0,
                    self@ == old(self)@.at(self.counter as nat),
                    self.budget() == old(self).budget(),
                    origin == old(self)@.counter,
                decreases program@.len() - self.counter,
            {
                self.counter += 1;
                if self.counter == length {
                    assert(!has_close(program@, origin)) by {
                        assert forall|close: int| !closes(program@, origin, close) by {
                            if origin < close < program@.len() {
                                assert(forward_depth(program@, origin, close) > 0);
                            }
                        }
                    }
                    return Err(unmatched_open_message());
                }
                if program[self.counter] == '[' {
                    level += 1;
                } else if program[self.counter] == ']' {
                    level -= 1;
                }
            }
            assert(closes(program@, origin, self.counter as int));
            assert(close_of(program@, origin) == self.counter) by {
                lemma_close_is_unique(
                    program@,
                    origin,
                    close_of(program@, origin),
                    self.counter as int,
                );
            }
        }
        Ok(())
    }

    /// The jump of a `]`. On a cell that is not zero the counter moves back
    /// to the partner of the bracket at the counter, and the call fails, with
    /// the counter at the start of the program, where there is none. On a
    /// zero cell nothing happens.
    fn end(&mut self, program: &[char]) -> (result: Result<(), String>)
        requires
            old(self).wf(),
            old(self)@.counter < program@.len(),
        ensures
            final(self)@ == old(self)@.repeated(program@),
            final(self).budget() == old(self).budget(),
            result is Err <==> old(self)@.cell() != 0 && !has_open(
                program@,
                old(self)@.counter as int,
            ),
            result matches Err(words) ==> words@ == message(
                Fault::UnmatchedClose,
                old(self).budget(),
            ),
    {
        if self.memory[self.pointer] != Cell::from(0) {
            let ghost origin = self.counter as int;
            let mut level: usize = 1;
            while level > 0
                invariant
                    old(self)@.cell() != 0,
                    0 <= self.counter <= origin < program@.len(),
                    level == backward_depth(program@, origin, self.counter as int),
                    level <= origin - self.counter + 1,
                    forall|k: int|
                        self.counter < k < origin ==> backward_depth(program@, origin, k) > 0,
                    self@ == old(self)@.at(self.counter as nat),
                    self.budget() == old(self).budget(),
                    origin == old(self)@.counter,
                decreases self.counter,
            {
                if self.counter == 0 {
                    assert(!has_open(program@, origin)) by {
                        assert forall|open: int| !opens(program@, origin, open) by {
                            if 0 <= open < origin {
                                assert(backward_depth(program@, origin, open) > 0);
                            }
                        }
                    }
                    return Err(unmatched_close_message());
                }
                self.counter -= 1;
                proof {
                    lemma_nesting_first(program@, self.counter as int, origin);
                }
                if program[self.counter] == '[' {
                    level -= 1;
                } else if program[self.counter] == ']' {
                    level += 1;
                }
            }
            assert(opens(program@, origin, self.counter as int));
            assert(open_of(program@, origin) == self.counter) by {
                lemma_open_is_unique(
                    program@,
                    origin,
                    open_of(program@, origin),
                    self.counter as int,
                );
            }
        }
        Ok(())
    }
}

} // verus!
