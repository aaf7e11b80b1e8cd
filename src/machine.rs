use vstd::prelude::*;
use crate::instr::{InstrV, RunError, StackVal};

verus! {

/// The engine's state: the program counter and the operand stack, bottom
/// first.
pub struct Machine {
    pub pc: int,
    pub stack: Seq<StackVal>,
}

/// What executing the instruction at the program counter does.
pub enum Transition {
    /// The program counter is past the last instruction: execution is over.
    Halt,
    /// The instruction fails; the state is left as it was.
    Fault(RunError),
    /// The next state, and the value printed, if any.
    Next(Machine, Option<i32>),
}

/// How a bounded run ended.
#[derive(Clone, Copy, Debug, PartialEq, Eq, Structural)]
pub enum Status {
    /// The program counter ran past the last instruction.
    Halted,
    /// An instruction failed.
    Faulted(RunError),
    /// The step budget was spent first.
    OutOfFuel,
}

/// The result of a bounded run: the final state, the program counter of each
/// instruction executed (where the control point was reached), in order, and
/// the values printed, in order.
pub struct Run {
    pub machine: Machine,
    pub trace: Seq<int>,
    pub output: Seq<i32>,
    pub status: Status,
}

/// One step of execution.
pub open spec fn step_spec(prog: Seq<InstrV>, labels: Map<Seq<char>, usize>, m: Machine) -> Transition {
    let s = m.stack;
    let n = s.len();
    let next = m.pc + 1;
    if !(0 <= m.pc < prog.len()) {
        Transition::Halt
    } else {
        match prog[m.pc] {
            InstrV::Push(v) => Transition::Next(
                Machine { pc: next, stack: s.push(StackVal::Number(v)) },
                None,
            ),
            InstrV::Pop => if n < 1 {
                Transition::Fault(RunError::StackUnderflow)
            } else {
                Transition::Next(Machine { pc: next, stack: s.drop_last() }, None)
            },
            InstrV::Dup => if n < 1 {
                Transition::Fault(RunError::StackUnderflow)
            } else {
                Transition::Next(Machine { pc: next, stack: s.push(s.last()) }, None)
            },
            InstrV::Add => if n < 2 {
                Transition::Fault(RunError::StackUnderflow)
            } else {
                let a = s[n - 1].num();
                let b = s[n - 2].num();
                Transition::Next(
                    Machine {
                        pc: next,
                        stack: s.subrange(0, n - 2).push(StackVal::Number(a.wrapping_add(b))),
                    },
                    None,
                )
            },
            InstrV::Sub => if n < 2 {
                Transition::Fault(RunError::StackUnderflow)
            } else {
                let a = s[n - 1].num();
                let b = s[n - 2].num();
                Transition::Next(
                    Machine {
                        pc: next,
                        stack: s.subrange(0, n - 2).push(StackVal::Number(b.wrapping_sub(a))),
                    },
                    None,
                )
            },
            InstrV::Print => if n < 1 {
                Transition::Fault(RunError::StackUnderflow)
            } else {
                Transition::Next(Machine { pc: next, stack: s.drop_last() }, Some(s.last().num()))
            },
            InstrV::JumpEqual(c, l) => jump(labels, m, s.len() >= 1 && s.last().num() == c, l),
            InstrV::JumpNotEqual(c, l) => jump(labels, m, s.len() >= 1 && s.last().num() != c, l),
        }
    }
}

/// A conditional jump: pop the top value, then go to the label when `taken`,
/// else fall through.
pub open spec fn jump(labels: Map<Seq<char>, usize>, m: Machine, taken: bool, l: Seq<char>) -> Transition {
    if m.stack.len() < 1 {
        Transition::Fault(RunError::StackUnderflow)
    } else if taken {
        if labels.contains_key(l) {
            Transition::Next(Machine { pc: labels[l] as int, stack: m.stack.drop_last() }, None)
        } else {
            Transition::Fault(RunError::UndefinedLabel)
        }
    } else {
        Transition::Next(Machine { pc: m.pc + 1, stack: m.stack.drop_last() }, None)
    }
}

pub open spec fn printed(out: Option<i32>) -> Seq<i32> {
    match out {
        Some(v) => seq![v],
        None => Seq::empty(),
    }
}

/// Runs from `m` for at most `fuel` instructions.
pub open spec fn run_spec(prog: Seq<InstrV>, labels: Map<Seq<char>, usize>, m: Machine, fuel: nat) -> Run
    decreases fuel,
{
    if !(0 <= m.pc < prog.len()) {
        Run { machine: m, trace: Seq::empty(), output: Seq::empty(), status: Status::Halted }
    } else if fuel == 0 {
        Run { machine: m, trace: Seq::empty(), output: Seq::empty(), status: Status::OutOfFuel }
    } else {
        match step_spec(prog, labels, m) {
            Transition::Next(m2, out) => {
                let r = run_spec(prog, labels, m2, (fuel - 1) as nat);
                Run {
                    machine: r.machine,
                    trace: seq![m.pc].add(r.trace),
                    output: printed(out).add(r.output),
                    status: r.status,
                }
            },
            Transition::Fault(e) => Run {
                machine: m,
                trace: seq![m.pc],
                output: Seq::empty(),
                status: Status::Faulted(e),
            },
            Transition::Halt => Run {
                machine: m,
                trace: Seq::empty(),
                output: Seq::empty(),
                status: Status::Halted,
            },
        }
    }
}


/// Whether the program holds no jump instruction.
pub open spec fn has_no_jumps(prog: Seq<InstrV>) -> bool {
    forall|i: int|
        0 <= i < prog.len() ==> !((#[trigger] prog[i]) is JumpEqual) && !(prog[i] is JumpNotEqual)
}

/// In a program without jumps, instructions execute in the order in which
/// they are written: the control point is reached exactly once for each
/// instruction executed, at consecutive addresses from the starting one. A
/// run that halts has executed every instruction from there to the end; one
/// cut short by its budget has executed as many as the budget allowed.
pub proof fn lemma_straight_line_order(
    prog: Seq<InstrV>,
    labels: Map<Seq<char>, usize>,
    m: Machine,
    fuel: nat,
)
    requires
        has_no_jumps(prog),
        0 <= m.pc <= prog.len(),
    ensures
        ({
            let r = run_spec(prog, labels, m, fuel);
            &&& forall|k: int| 0 <= k < r.trace.len() ==> r.trace[k] == m.pc + k
            &&& r.trace.len() <= fuel
            &&& r.status == Status::Halted ==> m.pc + r.trace.len() == prog.len()
            &&& r.status == Status::OutOfFuel ==> r.trace.len() == fuel
        }),
    decreases fuel,
{
    let r = run_spec(prog, labels, m, fuel);
    if 0 <= m.pc < prog.len() && fuel > 0 {
        assert(!(prog[m.pc] is JumpEqual) && !(prog[m.pc] is JumpNotEqual));
        match step_spec(prog, labels, m) {
            Transition::Next(m2, out) => {
                assert(m2.pc == m.pc + 1);
                lemma_straight_line_order(prog, labels, m2, (fuel - 1) as nat);
                let rest = run_spec(prog, labels, m2, (fuel - 1) as nat);
                assert(r.trace == seq![m.pc].add(rest.trace));
                assert forall|k: int| 0 <= k < r.trace.len() implies r.trace[k] == m.pc + k by {
                    if k > 0 {
                        assert(r.trace[k] == rest.trace[k - 1]);
                    }
                }
            },
            _ => {},
        }
    }
}

} // verus!
