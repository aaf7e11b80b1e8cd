use vstd::prelude::*;
use crate::instr::{Instr, InstrV, LoadError, RunError, StackVal};
use crate::labels::LabelTable;
use crate::loader::{instrs_view, load, texts};
use crate::machine::{printed, run_spec, step_spec, Machine, Status, Transition};
use crate::stack::Stack;

verus! {

/// An interpreter instance: a loaded program, its label table, the operand
/// stack and the program counter.
pub struct Interp {
    program: Vec<Instr>,
    labels: LabelTable,
    stack: Stack,
    pc: usize,
}

/// What one step did.
#[derive(Clone, Copy, Debug, PartialEq, Eq, Structural)]
pub enum Event {
    /// The program counter is past the last instruction; nothing was done.
    Halted,
    /// One instruction ran; it printed the value given, if any.
    Ran(Option<i32>),
}

/// The outcome of a bounded run.
pub struct RunReport {
    /// The program counter of each instruction executed, in order.
    pub trace: Vec<usize>,
    /// The values printed, in order.
    pub output: Vec<i32>,
    pub status: Status,
}

impl Interp {
    pub closed spec fn program_view(&self) -> Seq<InstrV> {
        instrs_view(self.program@)
    }

    pub closed spec fn labels_view(&self) -> Map<Seq<char>, usize> {
        self.labels@
    }

    pub closed spec fn machine(&self) -> Machine {
        Machine { pc: self.pc as int, stack: self.stack@ }
    }

    pub closed spec fn wf(&self) -> bool {
        &&& self.labels.wf()
        &&& self.pc <= self.program@.len()
        &&& forall|name: Seq<char>|
            #[trigger] self.labels@.contains_key(name) ==> self.labels@[name] <= self.program@.len()
    }

    /// Loads program text, given as its lines, into a fresh interpreter whose
    /// program counter is zero and whose stack is empty.
    pub fn new(lines: &Vec<String>) -> (r: Result<Interp, LoadError>)
        ensures
            match r {
                Ok(it) => {
                    &&& it.wf()
                    &&& load(texts(lines@)) == Ok::<_, LoadError>(
                        (it.program_view(), it.labels_view()),
                    )
                    &&& it.machine() == Machine { pc: 0, stack: Seq::empty() }
                },
                Err(e) => load(texts(lines@)) == Err::<
                    (Seq<InstrV>, Map<Seq<char>, usize>),
                    _,
                >(e),
            },
    {
        match Self::parse(lines) {
            Ok((program, labels)) => Ok(Interp { program, labels, stack: Stack::new(), pc: 0 }),
            Err(e) => Err(e),
        }
    }

    /// The program counter.
    pub fn pc(&self) -> (r: usize)
        ensures
            r as int == self.machine().pc,
    {
        self.pc
    }

    /// The number of instructions in the program.
    pub fn program_len(&self) -> (r: usize)
        ensures
            r == self.program_view().len(),
    {
        self.program.len()
    }

    /// Whether execution is over: the program counter is past the last
    /// instruction.
    pub fn is_halted(&self) -> (r: bool)
        ensures
            r == (self.machine().pc >= self.program_view().len()),
    {
        self.pc >= self.program.len()
    }

    /// Executes the instruction at the program counter, as `step_spec`
    /// describes. A failing instruction leaves the state as it was.
    pub fn step(&mut self) -> (r: Result<Event, RunError>)
        requires
            old(self).wf(),
        ensures
            final(self).wf(),
            final(self).program_view() == old(self).program_view(),
            final(self).labels_view() == old(self).labels_view(),
            match step_spec(old(self).program_view(), old(self).labels_view(), old(self).machine()) {
                Transition::Halt => {
                    &&& r == Ok::<Event, RunError>(Event::Halted)
                    &&& final(self).machine() == old(self).machine()
                },
                Transition::Fault(e) => {
                    &&& r == Err::<Event, RunError>(e)
                    &&& final(self).machine() == old(self).machine()
                },
                Transition::Next(m, out) => {
                    &&& r == Ok::<Event, RunError>(Event::Ran(out))
                    &&& final(self).machine() == m
                },
            },
    {
        if self.pc >= self.program.len() {
            return Ok(Event::Halted);
        }
        let n = self.stack.len();
        let pc = self.pc;
        let ghost s = self.stack@;
        match &self.program[pc] {
            Instr::Push(v) => {
                self.stack.push(*v);
                self.pc = pc + 1;
                Ok(Event::Ran(None))
            },
            Instr::Pop => {
                if n < 1 {
                    return Err(RunError::StackUnderflow);
                }
                let _ = self.stack.pop();
                self.pc = pc + 1;
                Ok(Event::Ran(None))
            },
            Instr::Dup => {
                let val = match self.stack.pop() {
                    Ok(val) => val,
                    Err(e) => return Err(e),
                };
                self.stack.push(val);
                self.stack.push(val);
                assert(self.stack@ =~= s.push(s.last()));
                self.pc = pc + 1;
                Ok(Event::Ran(None))
            },
            Instr::Add => {
                if n < 2 {
                    return Err(RunError::StackUnderflow);
                }
                let a = match self.stack.pop_number() {
                    Ok(a) => a,
                    Err(e) => return Err(e),
                };
                let b = match self.stack.pop_number() {
                    Ok(b) => b,
                    Err(e) => return Err(e),
                };
                self.stack.push(StackVal::Number(a.wrapping_add(b)));
                assert(self.stack@ =~= s.subrange(0, n - 2).push(StackVal::Number(a.wrapping_add(b))));
                self.pc = pc + 1;
                Ok(Event::Ran(None))
            },
            Instr::Sub => {
                if n < 2 {
                    return Err(RunError::StackUnderflow);
                }
                let a = match self.stack.pop_number() {
                    Ok(a) => a,
                    Err(e) => return Err(e),
                };
                let b = match self.stack.pop_number() {
                    Ok(b) => b,
                    Err(e) => return Err(e),
                };
                self.stack.push(StackVal::Number(b.wrapping_sub(a)));
                assert(self.stack@ =~= s.subrange(0, n - 2).push(StackVal::Number(b.wrapping_sub(a))));
                self.pc = pc + 1;
                Ok(Event::Ran(None))
            },
            Instr::Print => {
                let v = match self.stack.pop_number() {
                    Ok(v) => v,
                    Err(e) => return Err(e),
                };
                self.pc = pc + 1;
                Ok(Event::Ran(Some(v)))
            },
            Instr::JumpEqual(c, label) => {
                let top = match self.stack.peek() {
                    Some(StackVal::Number(t)) => t,
                    None => return Err(RunError::StackUnderflow),
                };
                if top == *c {
                    match self.labels.get(label.as_str()) {
                        Some(addr) => {
                            let _ = self.stack.pop();
                            self.pc = addr;
                        },
                        None => return Err(RunError::UndefinedLabel),
                    }
                } else {
                    let _ = self.stack.pop();
                    self.pc = pc + 1;
                }
                Ok(Event::Ran(None))
            },
            Instr::JumpNotEqual(c, label) => {
                let top = match self.stack.peek() {
                    Some(StackVal::Number(t)) => t,
                    None => return Err(RunError::StackUnderflow),
                };
                if top != *c {
                    match self.labels.get(label.as_str()) {
                        Some(addr) => {
                            let _ = self.stack.pop();
                            self.pc = addr;
                        },
                        None => return Err(RunError::UndefinedLabel),
                    }
                } else {
                    let _ = self.stack.pop();
                    self.pc = pc + 1;
                }
                Ok(Event::Ran(None))
            },
        }
    }

    /// Runs for at most `fuel` instructions, as `run_spec` describes,
    /// recording where each instruction's control point was reached and what
    /// was printed.
    pub fn run(&mut self, fuel: usize) -> (report: RunReport)
        requires
            old(self).wf(),
        ensures
            final(self).wf(),
            final(self).program_view() == old(self).program_view(),
            final(self).labels_view() == old(self).labels_view(),
            ({
                let r = run_spec(
                    old(self).program_view(),
                    old(self).labels_view(),
                    old(self).machine(),
                    fuel as nat,
                );
                &&& report.trace@.map_values(|p: usize| p as int) == r.trace
                &&& report.output@ == r.output
                &&& report.status == r.status
                &&& final(self).machine() == r.machine
            }),
    {
        let ghost prog = self.program_view();
        let ghost labels = self.labels_view();
        let ghost whole = run_spec(prog, labels, self.machine(), fuel as nat);
        let mut trace: Vec<usize> = Vec::new();
        let mut output: Vec<i32> = Vec::new();
        let mut left: usize = fuel;
        let status: Status;
        assert(trace@.map_values(|p: usize| p as int) =~= Seq::<int>::empty());
        assert(whole.trace =~= trace@.map_values(|p: usize| p as int).add(whole.trace));
        assert(whole.output =~= output@.add(whole.output));
        loop
            invariant_except_break
                ({
                    let rest = run_spec(prog, labels, self.machine(), left as nat);
                    &&& whole.trace == trace@.map_values(|p: usize| p as int).add(rest.trace)
                    &&& whole.output == output@.add(rest.output)
                    &&& whole.status == rest.status
                    &&& whole.machine == rest.machine
                }),
            invariant
                self.wf(),
                self.program_view() == prog,
                self.labels_view() == labels,
            ensures
                self.wf(),
                self.program_view() == prog,
                self.labels_view() == labels,
                whole.trace == trace@.map_values(|p: usize| p as int),
                whole.output == output@,
                whole.status == status,
                whole.machine == self.machine(),
            decreases left,
        {
            if self.is_halted() {
                status = Status::Halted;
                assert(trace@.map_values(|p: usize| p as int).add(Seq::<int>::empty()) =~= trace@.map_values(|p: usize| p as int));
                assert(output@.add(Seq::<i32>::empty()) =~= output@);
                break;
            }
            if left == 0 {
                status = Status::OutOfFuel;
                assert(trace@.map_values(|p: usize| p as int).add(Seq::<int>::empty()) =~= trace@.map_values(|p: usize| p as int));
                assert(output@.add(Seq::<i32>::empty()) =~= output@);
                break;
            }
            let ghost before = self.machine();
            let ghost tr = trace@.map_values(|p: usize| p as int);
            let pc = self.pc;
            trace.push(pc);
            assert(trace@.map_values(|p: usize| p as int) =~= tr.push(pc as int));
            match self.step() {
                Err(e) => {
                    status = Status::Faulted(e);
                    assert(tr.add(seq![before.pc]) =~= tr.push(pc as int));
                    assert(output@.add(Seq::<i32>::empty()) =~= output@);
                    break;
                },
                Ok(Event::Ran(out)) => {
                    let ghost rest = run_spec(prog, labels, self.machine(), (left - 1) as nat);
                    assert(tr.add(seq![before.pc].add(rest.trace)) =~= tr.push(pc as int).add(rest.trace));
                    let ghost out_before = output@;
                    match out {
                        Some(v) => output.push(v),
                        None => {},
                    }
                    assert(out_before.add(printed(out).add(rest.output)) =~= output@.add(rest.output));
                    left -= 1;
                },
                Ok(Event::Halted) => {
                    status = Status::Halted;
                    break;
                },
            }
        }
        RunReport { trace, output, status }
    }
}

} // verus!
