use vstd::prelude::*;
use crate::instr::{Instr, InstrV, LoadError, ParsedLine, ParsedLineV, StackVal};
use crate::interp::Interp;
use crate::labels::LabelTable;
use crate::lexer::{lemma_split_nonempty, parse_decimal, parse_i32, same_text, split_spaces, split_text, trim, trim_text};

verus! {

/// The tokens of a line: the trimmed line cut at single spaces, each piece
/// trimmed again.
pub open spec fn line_tokens(line: Seq<char>) -> Seq<Seq<char>> {
    split_spaces(trim(line)).map_values(|t: Seq<char>| trim(t))
}

/// What the leading tokens of a line stand for, with how many tokens that
/// took.
pub open spec fn decode(t: Seq<Seq<char>>) -> Result<(ParsedLineV, nat), LoadError> {
    if t.len() == 0 {
        Err(LoadError::TooFewArguments)
    } else {
        let op = t[0];
        if op == "add"@ {
            Ok((ParsedLineV::Instr(InstrV::Add), 1))
        } else if op == "sub"@ {
            Ok((ParsedLineV::Instr(InstrV::Sub), 1))
        } else if op == "print"@ {
            Ok((ParsedLineV::Instr(InstrV::Print), 1))
        } else if op == "pop"@ {
            Ok((ParsedLineV::Instr(InstrV::Pop), 1))
        } else if op == "dup"@ {
            Ok((ParsedLineV::Instr(InstrV::Dup), 1))
        } else if op == "je"@ || op == "jne"@ {
            if t.len() < 2 {
                Err(LoadError::TooFewArguments)
            } else {
                match parse_i32(t[1]) {
                    None => Err(LoadError::UnparsedNumber),
                    Some(c) => if t.len() < 3 {
                        Err(LoadError::TooFewArguments)
                    } else if op == "je"@ {
                        Ok((ParsedLineV::Instr(InstrV::JumpEqual(c, t[2])), 3))
                    } else {
                        Ok((ParsedLineV::Instr(InstrV::JumpNotEqual(c, t[2])), 3))
                    },
                }
            }
        } else if op == "push"@ {
            if t.len() < 2 {
                Err(LoadError::TooFewArguments)
            } else {
                match parse_i32(t[1]) {
                    None => Err(LoadError::UnparsedNumber),
                    Some(v) => Ok((ParsedLineV::Instr(InstrV::Push(v)), 2)),
                }
            }
        } else if op.len() > 0 && op.last() == ':' {
            Ok((ParsedLineV::Label(op.drop_last()), 1))
        } else {
            Err(LoadError::UnknownOpcode)
        }
    }
}

/// What a line of program text stands for.
pub open spec fn parse_line_spec(line: Seq<char>) -> Result<ParsedLineV, LoadError> {
    let t = line_tokens(line);
    match decode(t) {
        Err(e) => Err(e),
        Ok((p, used)) => if t.len() > used {
            Err(LoadError::TooManyOperands)
        } else {
            Ok(p)
        },
    }
}

pub open spec fn parsed_view(r: Result<ParsedLine, LoadError>) -> Result<ParsedLineV, LoadError> {
    match r {
        Ok(p) => Ok(p@),
        Err(e) => Err(e),
    }
}

pub open spec fn texts(lines: Seq<String>) -> Seq<Seq<char>> {
    lines.map_values(|l: String| l@)
}

/// The instructions and label table that lines of program text load to, line
/// by line: an instruction line adds its instruction, a label line binds a new
/// name to the number of instructions so far.
pub open spec fn load(lines: Seq<Seq<char>>) -> Result<(Seq<InstrV>, Map<Seq<char>, usize>), LoadError>
    decreases lines.len(),
{
    if lines.len() == 0 {
        Ok((Seq::empty(), Map::empty()))
    } else {
        match load(lines.drop_last()) {
            Err(e) => Err(e),
            Ok((prog, labels)) => match parse_line_spec(lines.last()) {
                Err(e) => Err(e),
                Ok(ParsedLineV::Instr(i)) => Ok((prog.push(i), labels)),
                Ok(ParsedLineV::Label(name)) => if labels.contains_key(name) {
                    Err(LoadError::DuplicateLabel)
                } else {
                    Ok((prog, labels.insert(name, prog.len() as usize)))
                },
            },
        }
    }
}

impl Interp {
    /// Reads a decimal `i32` operand.
    pub fn parse_number(s: &str) -> (r: Result<i32, LoadError>)
        ensures
            r == (match parse_i32(s@) {
                Some(v) => Ok::<i32, LoadError>(v),
                None => Err(LoadError::UnparsedNumber),
            }),
    {
        match parse_decimal(s) {
            Some(v) => Ok(v),
            None => Err(LoadError::UnparsedNumber),
        }
    }

    /// Parses one line of program text into an instruction or a label.
    pub fn parse_line(line: &str) -> (r: Result<ParsedLine, LoadError>)
        ensures
            parsed_view(r) == parse_line_spec(line@),
    {
        let pieces = split_text(trim_text(line));
        let ghost t = line_tokens(line@);
        let mut toks: Vec<&str> = Vec::new();
        let mut k: usize = 0;
        while k < pieces.len()
            invariant
                t == line_tokens(line@),
                t.len() == pieces@.len(),
                forall|j: int|
                    0 <= j < pieces@.len() ==> (#[trigger] pieces@[j])@ == split_spaces(
                        trim(line@),
                    )[j],
                k <= pieces@.len(),
                toks@.len() == k,
                forall|j: int| 0 <= j < k ==> (#[trigger] toks@[j])@ == t[j],
            decreases pieces@.len() - k,
        {
            toks.push(trim_text(pieces[k]));
            k += 1;
        }
        let n = toks.len();
        proof {
            lemma_split_nonempty(trim(line@));
        }
        let op = toks[0];
        let used: usize;
        let parsed: ParsedLine;
        if same_text(op, "add") {
            parsed = ParsedLine::Instr(Instr::Add);
            used = 1;
        } else if same_text(op, "sub") {
            parsed = ParsedLine::Instr(Instr::Sub);
            used = 1;
        } else if same_text(op, "print") {
            parsed = ParsedLine::Instr(Instr::Print);
            used = 1;
        } else if same_text(op, "pop") {
            parsed = ParsedLine::Instr(Instr::Pop);
            used = 1;
        } else if same_text(op, "dup") {
            parsed = ParsedLine::Instr(Instr::Dup);
            used = 1;
        } else if same_text(op, "je") || same_text(op, "jne") {
            if n < 2 {
                return Err(LoadError::TooFewArguments);
            }
            let c = match Self::parse_number(toks[1]) {
                Ok(c) => c,
                Err(e) => return Err(e),
            };
            if n < 3 {
                return Err(LoadError::TooFewArguments);
            }
            let target = toks[2].to_owned();
            if same_text(op, "je") {
                parsed = ParsedLine::Instr(Instr::JumpEqual(c, target));
            } else {
                parsed = ParsedLine::Instr(Instr::JumpNotEqual(c, target));
            }
            used = 3;
        } else if same_text(op, "push") {
            if n < 2 {
                return Err(LoadError::TooFewArguments);
            }
            let v = match Self::parse_number(toks[1]) {
                Ok(v) => v,
                Err(e) => return Err(e),
            };
            parsed = ParsedLine::Instr(Instr::Push(StackVal::Number(v)));
            used = 2;
        } else {
            let len = op.unicode_len();
            if len > 0 && op.get_char(len - 1) == ':' {
                let name = op.substring_char(0, len - 1).to_owned();
                assert(name@ =~= op@.drop_last());
                parsed = ParsedLine::Label(name);
                used = 1;
            } else {
                return Err(LoadError::UnknownOpcode);
            }
        }
        if n > used {
            return Err(LoadError::TooManyOperands);
        }
        Ok(parsed)
    }
}


pub open spec fn instrs_view(p: Seq<Instr>) -> Seq<InstrV> {
    p.map_values(|i: Instr| i@)
}

/// Once loading a prefix of the lines has failed, loading all of them fails
/// with the same error.
pub proof fn lemma_load_error_persists(lines: Seq<Seq<char>>, i: int)
    requires
        0 <= i <= lines.len(),
        load(lines.subrange(0, i)) is Err,
    ensures
        load(lines) == load(lines.subrange(0, i)),
    decreases lines.len(),
{
    if i == lines.len() {
        assert(lines.subrange(0, i) =~= lines);
    } else {
        assert(lines.drop_last().subrange(0, i) =~= lines.subrange(0, i));
        lemma_load_error_persists(lines.drop_last(), i);
    }
}

impl Interp {
    /// Loads program text, given as its lines, into instructions and a label
    /// table.
    pub fn parse(lines: &Vec<String>) -> (r: Result<(Vec<Instr>, LabelTable), LoadError>)
        ensures
            match r {
                Ok((p, l)) => {
                    &&& l.wf()
                    &&& load(texts(lines@)) == Ok::<_, LoadError>((instrs_view(p@), l@))
                    &&& forall|name: Seq<char>|
                        #[trigger] l@.contains_key(name) ==> l@[name] <= p@.len()
                },
                Err(e) => load(texts(lines@)) == Err::<(Seq<InstrV>, Map<Seq<char>, usize>), _>(e),
            },
    {
        let ghost all = texts(lines@);
        let mut program: Vec<Instr> = Vec::new();
        let mut labels = LabelTable::new();
        let mut i: usize = 0;
        assert(instrs_view(program@) =~= Seq::<InstrV>::empty());
        assert(all.subrange(0, 0) =~= Seq::<Seq<char>>::empty());
        while i < lines.len()
            invariant
                all == texts(lines@),
                i <= lines@.len(),
                labels.wf(),
                load(all.subrange(0, i as int)) == Ok::<_, LoadError>(
                    (instrs_view(program@), labels@),
                ),
                forall|name: Seq<char>|
                    #[trigger] labels@.contains_key(name) ==> labels@[name] <= program@.len(),
                program@.len() <= i,
            decreases lines@.len() - i,
        {
            let ghost pre = all.subrange(0, i as int);
            let ghost next = all.subrange(0, i + 1);
            assert(next.drop_last() =~= pre);
            assert(next.last() == lines@[i as int]@);
            match Self::parse_line(lines[i].as_str()) {
                Err(e) => {
                    proof {
                        lemma_load_error_persists(all, i + 1);
                    }
                    return Err(e);
                },
                Ok(ParsedLine::Instr(instr)) => {
                    let ghost before = program@;
                    let ghost iv = instr@;
                    program.push(instr);
                    assert(instrs_view(program@) =~= instrs_view(before).push(iv));
                },
                Ok(ParsedLine::Label(name)) => {
                    let fresh = labels.insert(name, program.len());
                    if !fresh {
                        proof {
                            lemma_load_error_persists(all, i + 1);
                        }
                        return Err(LoadError::DuplicateLabel);
                    }
                },
            }
            i += 1;
        }
        assert(all.subrange(0, i as int) =~= all);
        Ok((program, labels))
    }
}

} // verus!
