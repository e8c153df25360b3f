//! The execution engine: a machine of tape, output buffer and instruction
//! pointer, advanced one instruction at a time.
use vstd::prelude::*;

use crate::compiler::Token;
use crate::errors::MyError;
use crate::io::{is_scalar, line_value, input_to_u32, trim_of, OutputMode, IO};
use crate::memory::{wrap_add, wrap_sub, Memory, MemoryView};

verus! {

/// The instructions of a program and the index of the next one to run.
pub struct ExecQueue {
    view: Vec<Token>,
    ptr: usize,
}

impl ExecQueue {
    pub closed spec fn tokens(&self) -> Seq<Token> {
        self.view@
    }

    pub closed spec fn ip(&self) -> int {
        self.ptr as int
    }

    /// A queue at the first instruction of `token_vec`.
    pub fn new(token_vec: Vec<Token>) -> (r: ExecQueue)
        ensures
            r.tokens() == token_vec@,
            r.ip() == 0,
    {
        ExecQueue { view: token_vec, ptr: 0 }
    }

    /// Moves to instruction `n`, the partner of an opening jump.
    pub fn jump_forward(&mut self, n: u32)
        ensures
            final(self).tokens() == old(self).tokens(),
            final(self).ip() == n,
    {
        self.ptr = n as usize;
    }

    /// Moves to instruction `n`, the partner of a closing jump.
    pub fn jump_back(&mut self, n: u32)
        ensures
            final(self).tokens() == old(self).tokens(),
            final(self).ip() == n,
    {
        self.ptr = n as usize;
    }

    /// The instruction to run next, if any is left.
    pub fn current(&self) -> (r: Option<Token>)
        ensures
            self.ip() < self.tokens().len() ==> r == Some(self.tokens()[self.ip()]),
            self.ip() >= self.tokens().len() ==> r is None,
    {
        if self.ptr < self.view.len() {
            Some(self.view[self.ptr])
        } else {
            None
        }
    }

    /// Moves past the current instruction.
    pub fn advance(&mut self)
        requires
            old(self).ip() < old(self).tokens().len(),
        ensures
            final(self).tokens() == old(self).tokens(),
            final(self).ip() == old(self).ip() + 1,
    {
        if self.ptr < self.view.len() {
            self.ptr = self.ptr + 1;
        }
    }
}

/// What a step of the machine leads to.
#[derive(Clone, Copy, Debug, PartialEq, Eq, Structural)]
pub enum Event {
    /// An instruction ran; there is more to run.
    Continue,
    /// A write instruction ran and buffered this character.
    Printed(char),
    /// The current instruction reads; the machine waits for a line of input.
    NeedsInput,
    /// The instruction pointer is past the last instruction.
    Finished,
}

/// The machine as values: tape, buffered output, program and the index of
/// the next instruction.
pub struct MachineView {
    pub mem: MemoryView,
    pub out: Seq<u32>,
    pub prog: Seq<Token>,
    pub ip: int,
}

impl MachineView {
    pub open spec fn current(self) -> Token {
        self.prog[self.ip]
    }

    pub open spec fn next(self) -> MachineView {
        MachineView { ip: self.ip + 1, ..self }
    }

    pub open spec fn awaiting_input(self) -> bool {
        0 <= self.ip < self.prog.len() && self.current() == Token::Input
    }
}

/// One step from `m`: the machine after it and the event, or the error, in
/// which case the machine stays as it was.
pub open spec fn step_spec(m: MachineView) -> (MachineView, Result<Event, MyError>) {
    if m.ip < 0 || m.ip >= m.prog.len() {
        (m, Ok(Event::Finished))
    } else {
        let v = m.mem.current();
        match m.current() {
            Token::PtrIncrease(n) => if m.mem.ptr + n >= usize::MAX {
                (m, Err(MyError::PointerOverflow { ptr: m.mem.ptr as usize, n }))
            } else {
                (MachineView { mem: m.mem.moved_right(n as int), ..m.next() }, Ok(Event::Continue))
            },
            Token::PtrDecrease(n) => if n > m.mem.ptr {
                (m, Err(MyError::PointerUnderflow { ptr: m.mem.ptr as usize, n }))
            } else {
                (
                    MachineView { mem: MemoryView { ptr: m.mem.ptr - n, ..m.mem }, ..m.next() },
                    Ok(Event::Continue),
                )
            },
            Token::DataIncrease(n) => (
                MachineView {
                    mem: m.mem.with_current(wrap_add(v as int, n as int, m.mem.cell_max as int) as u32),
                    ..m.next()
                },
                Ok(Event::Continue),
            ),
            Token::DataDecrease(n) => (
                MachineView {
                    mem: m.mem.with_current(wrap_sub(v as int, n as int, m.mem.cell_max as int) as u32),
                    ..m.next()
                },
                Ok(Event::Continue),
            ),
            Token::JumpForward(t) => if v == 0 {
                (MachineView { ip: t as int, ..m }, Ok(Event::Continue))
            } else {
                (m.next(), Ok(Event::Continue))
            },
            Token::JumpBack(t) => if v != 0 {
                (MachineView { ip: t as int, ..m }, Ok(Event::Continue))
            } else {
                (m.next(), Ok(Event::Continue))
            },
            Token::Output => if is_scalar(v) {
                (MachineView { out: m.out.push(v), ..m.next() }, Ok(Event::Printed(v as char)))
            } else {
                (m, Err(MyError::InvalidScalar(v)))
            },
            Token::Input => (m, Ok(Event::NeedsInput)),
        }
    }
}

/// Up to `fuel` steps from `m`, stopping at the first event other than
/// `Continue` or at the first error.
pub open spec fn run_spec(m: MachineView, fuel: nat) -> (MachineView, Result<Event, MyError>)
    decreases fuel,
{
    if fuel == 0 {
        (m, Ok(Event::Continue))
    } else {
        let (m2, r) = step_spec(m);
        if r == Ok::<Event, MyError>(Event::Continue) {
            run_spec(m2, (fuel - 1) as nat)
        } else {
            (m2, r)
        }
    }
}

/// The machine after a read instruction is given the parsed line `parsed`:
/// the value goes to the current cell unless it exceeds the ceiling.
pub open spec fn supply_spec(m: MachineView, parsed: Result<(u32, bool), MyError>) -> (
    MachineView,
    Result<bool, MyError>,
) {
    match parsed {
        Ok((v, eof)) => if v > m.mem.cell_max {
            (m, Err(MyError::InputOutOfRange { value: v, max: m.mem.cell_max }))
        } else {
            (MachineView { mem: m.mem.with_current(v), ..m.next() }, Ok(eof))
        },
        Err(e) => (m, Err(e)),
    }
}

/// A tape, an output buffer and a program under way.
pub struct Machine {
    memory: Memory,
    io: IO,
    queue: ExecQueue,
}

impl View for Machine {
    type V = MachineView;

    closed spec fn view(&self) -> MachineView {
        MachineView {
            mem: self.memory@,
            out: self.io@,
            prog: self.queue.tokens(),
            ip: self.queue.ip(),
        }
    }
}

impl Machine {
    pub closed spec fn wf(&self) -> bool {
        &&& self.memory.wf()
        &&& self.io.wf()
        &&& self.queue.ip() >= 0
    }

    pub closed spec fn mode(&self) -> OutputMode {
        self.io.mode()
    }

    /// A fresh tape of ceiling `cell_max`, an empty buffer, and `token_vec`
    /// at its first instruction.
    pub fn new(cell_max: u32, output_mode: OutputMode, token_vec: Vec<Token>) -> (r: Machine)
        ensures
            r.wf(),
            r@ == (MachineView {
                mem: MemoryView::initial(cell_max),
                out: Seq::empty(),
                prog: token_vec@,
                ip: 0,
            }),
            r.mode() == output_mode,
    {
        Machine {
            memory: Memory::new(cell_max),
            io: IO::new(output_mode),
            queue: ExecQueue::new(token_vec),
        }
    }

    pub fn memory(&self) -> (r: &Memory)
        ensures
            r@ == self@.mem,
    {
        &self.memory
    }

    pub fn io(&self) -> (r: &IO)
        requires
            self.wf(),
        ensures
            r@ == self@.out,
            r.mode() == self.mode(),
            r.wf(),
    {
        &self.io
    }

    /// Runs the current instruction.
    pub fn step(&mut self) -> (r: Result<Event, MyError>)
        requires
            old(self).wf(),
        ensures
            final(self).wf(),
            final(self).mode() == old(self).mode(),
            (final(self)@, r) == step_spec(old(self)@),
    {
        let token = match self.queue.current() {
            None => return Ok(Event::Finished),
            Some(t) => t,
        };
        match token {
            Token::PtrIncrease(n) => {
                let p = self.memory.ptr();
                if n as usize >= usize::MAX - p {
                    return Err(MyError::PointerOverflow { ptr: p, n });
                }
                self.memory.ptr_increase(n);
            },
            Token::PtrDecrease(n) => {
                match self.memory.ptr_decrease(n) {
                    Ok(()) => {},
                    Err(e) => return Err(e),
                }
            },
            Token::DataIncrease(n) => self.memory.data_increase(n),
            Token::DataDecrease(n) => self.memory.data_decrease(n),
            Token::JumpForward(t) => {
                if self.memory.output() == 0 {
                    self.queue.jump_forward(t);
                    return Ok(Event::Continue);
                }
            },
            Token::JumpBack(t) => {
                if self.memory.output() != 0 {
                    self.queue.jump_back(t);
                    return Ok(Event::Continue);
                }
            },
            Token::Output => {
                let v = self.memory.output();
                match self.io.output(v) {
                    Ok(c) => {
                        proof {
                            vstd::utf8::char_u32_cast(c, v);
                        }
                        self.queue.advance();
                        return Ok(Event::Printed(c));
                    },
                    Err(e) => return Err(e),
                }
            },
            Token::Input => return Ok(Event::NeedsInput),
        }
        self.queue.advance();
        Ok(Event::Continue)
    }

    /// Runs at most `fuel` instructions, stopping at the first event other
    /// than `Continue` or at the first error.
    pub fn run(&mut self, fuel: u64) -> (r: Result<Event, MyError>)
        requires
            old(self).wf(),
        ensures
            final(self).wf(),
            final(self).mode() == old(self).mode(),
            (final(self)@, r) == run_spec(old(self)@, fuel as nat),
    {
        let mut left: u64 = fuel;
        while left > 0
            invariant
                self.wf(),
                self.mode() == old(self).mode(),
                run_spec(self@, left as nat) == run_spec(old(self)@, fuel as nat),
            decreases left,
        {
            let r = self.step();
            left = left - 1;
            match r {
                Ok(Event::Continue) => {},
                _ => return r,
            }
        }
        Ok(Event::Continue)
    }

    /// The instruction to run next, if any is left.
    pub fn current_token(&self) -> (r: Option<Token>)
        ensures
            0 <= self@.ip < self@.prog.len() ==> r == Some(self@.current()),
            self@.ip >= self@.prog.len() ==> r is None,
    {
        self.queue.current()
    }

    /// Whether the current instruction is a read.
    pub fn is_awaiting_input(&self) -> (r: bool)
        ensures
            r == self@.awaiting_input(),
    {
        match self.queue.current() {
            Some(Token::Input) => true,
            _ => false,
        }
    }

    /// Completes the current read instruction with the parsed line `parsed`;
    /// returns whether the input had ended.
    pub fn supply(&mut self, parsed: Result<(u32, bool), MyError>) -> (r: Result<bool, MyError>)
        requires
            old(self).wf(),
            old(self)@.awaiting_input(),
        ensures
            final(self).wf(),
            final(self).mode() == old(self).mode(),
            (final(self)@, r) == supply_spec(old(self)@, parsed),
    {
        match parsed {
            Ok((v, eof)) => {
                let max = self.memory.cell_max();
                if v > max {
                    return Err(MyError::InputOutOfRange { value: v, max });
                }
                self.memory.input(v);
                self.queue.advance();
                Ok(eof)
            },
            Err(e) => Err(e),
        }
    }

    /// Completes the current read instruction with one line of input.
    pub fn input_line(&mut self, line: &str) -> (r: Result<bool, MyError>)
        requires
            old(self).wf(),
            old(self)@.awaiting_input(),
        ensures
            final(self).wf(),
            final(self).mode() == old(self).mode(),
            match line_value(line@, trim_of(line@)) {
                Some(p) => (final(self)@, r) == supply_spec(old(self)@, p),
                None => (r matches Err(MyError::Parse(_))) && final(self)@ == old(self)@,
            },
    {
        let parsed = input_to_u32(line);
        self.supply(parsed)
    }

    /// Replaces the program with `token_vec`, from its first instruction,
    /// keeping the tape and the output buffer.
    pub fn load(&mut self, token_vec: Vec<Token>)
        requires
            old(self).wf(),
        ensures
            final(self).wf(),
            final(self).mode() == old(self).mode(),
            final(self)@ == (MachineView { prog: token_vec@, ip: 0, ..old(self)@ }),
    {
        self.queue = ExecQueue::new(token_vec);
    }

    /// Puts the tape back to one zero cell and empties the output buffer.
    pub fn clear(&mut self)
        requires
            old(self).wf(),
        ensures
            final(self).wf(),
            final(self).mode() == old(self).mode(),
            final(self)@ == (MachineView {
                mem: MemoryView::initial(old(self)@.mem.cell_max),
                out: Seq::empty(),
                ..old(self)@
            }),
    {
        self.memory.clear();
        self.io.clear();
    }
}

} // verus!
