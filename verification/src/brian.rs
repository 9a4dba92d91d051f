//! The embedded tape virtual machine behind foreign-function definitions.
//!
//! A foreign body is a raw byte sequence; the recognised instructions move a
//! data pointer over a fixed-size tape of wrapping byte cells, change or
//! transfer the current cell, and loop between matched brackets. Bracket
//! matching is resolved once, at definition time; execution then uses the
//! precomputed jump table. Everything else is ignored as commentary.

use vstd::prelude::*;

use crate::error::ErrM;

verus! {

/// One pass of the bracket matcher: a stack of open positions, and the
/// table built so far. `None` means some bracket has no partner.
pub open spec fn match_scan(code: Seq<u8>, i: int, stack: Seq<int>, jumps: Seq<int>) -> Option<
    Seq<int>,
>
    decreases code.len() - i,
{
    if i < 0 || i >= code.len() {
        if stack.len() == 0 {
            Some(jumps)
        } else {
            None
        }
    } else if code[i] == 91 {
        match_scan(code, i + 1, stack.push(i), jumps)
    } else if code[i] == 93 {
        if stack.len() == 0 {
            None
        } else {
            let o = stack.last();
            match_scan(code, i + 1, stack.drop_last(), jumps.update(o, i).update(i, o))
        }
    } else {
        match_scan(code, i + 1, stack, jumps)
    }
}

/// The jump table of a foreign body: each loop-open position maps to its
/// partner loop-close and back; `None` when the brackets do not pair up.
pub open spec fn match_brackets_m(code: Seq<u8>) -> Option<Seq<int>> {
    match_scan(code, 0, Seq::empty(), Seq::new(code.len(), |i: int| 0int))
}

pub open spec fn jumps_view(js: Seq<usize>) -> Seq<int> {
    Seq::new(js.len(), |i: int| js[i] as int)
}

/// Resolve the bracket table of a foreign body, once, at definition time.
pub fn match_brackets(code: &Vec<u8>) -> (r: Option<Vec<usize>>)
    ensures
        match r {
            Some(js) => match_brackets_m(code@) == Some(jumps_view(js@)),
            None => match_brackets_m(code@) is None,
        },
{
    let n = code.len();
    let mut jumps: Vec<usize> = Vec::new();
    for k in 0..n
        invariant
            jumps@.len() == k,
            forall|j: int| 0 <= j < k ==> jumps@[j] == 0,
    {
        jumps.push(0);
    }
    proof {
        assert(jumps_view(jumps@) =~= Seq::new(code@.len(), |i: int| 0int));
    }
    let mut stack: Vec<usize> = Vec::new();
    let ghost stack0: Seq<int> = Seq::empty();
    proof {
        assert(Seq::new(stack@.len(), |i: int| stack@[i] as int) =~= stack0);
    }
    for i in 0..n
        invariant
            n == code@.len(),
            jumps@.len() == n,
            forall|j: int| 0 <= j < stack@.len() ==> stack@[j] < n,
            match_brackets_m(code@) == match_scan(
                code@,
                i as int,
                Seq::new(stack@.len(), |k: int| stack@[k] as int),
                jumps_view(jumps@),
            ),
    {
        let ghost st = Seq::new(stack@.len(), |k: int| stack@[k] as int);
        let c = code[i];
        if c == 91 {
            stack.push(i);
            proof {
                assert(Seq::new(stack@.len(), |k: int| stack@[k] as int) =~= st.push(i as int));
            }
        } else if c == 93 {
            match stack.pop() {
                Some(o) => {
                    let ghost old_jumps = jumps_view(jumps@);
                    jumps[o] = i;
                    jumps[i] = o;
                    proof {
                        assert(st.last() == o as int);
                        assert(Seq::new(stack@.len(), |k: int| stack@[k] as int)
                            =~= st.drop_last());
                        assert(jumps_view(jumps@) =~= old_jumps.update(o as int, i as int).update(
                            i as int,
                            o as int,
                        ));
                    }
                },
                None => {
                    return None;
                },
            }
        }
    }
    if stack.len() == 0 {
        Some(jumps)
    } else {
        None
    }
}

/// The machine state between steps: the tape, the data pointer, the next
/// instruction, the cursor into the shared input source, and what has been
/// written to the shared output sink.
pub struct BfState {
    pub tape: Seq<u8>,
    pub ptr: int,
    pub pc: int,
    pub in_pos: int,
    pub output: Seq<char>,
}

/// How a run of the machine ended.
pub enum BfEnd {
    Done,
    Fail(ErrM),
    Spent,
}

/// The exec-side counterpart of `BfEnd`; the machine can only fail on a
/// tape bound or a broken jump table.
pub enum BfEndE {
    Done,
    Bounds,
    Mismatched,
    Spent,
}

pub open spec fn bfend_matches(e: BfEndE, m: BfEnd) -> bool {
    match e {
        BfEndE::Done => m == BfEnd::Done,
        BfEndE::Bounds => m == BfEnd::Fail(ErrM::BfBounds),
        BfEndE::Mismatched => m == BfEnd::Fail(ErrM::MismatchedBracket),
        BfEndE::Spent => m == BfEnd::Spent,
    }
}

/// The byte one read instruction takes from the line-buffered input source:
/// the first character of the next line, or zero at exhaustion or on an
/// empty line or one whose first character is no byte.
pub open spec fn input_byte(input: Seq<Seq<char>>, in_pos: int) -> u8 {
    if 0 <= in_pos < input.len() {
        let line = input[in_pos];
        if line.len() > 0 && (line[0] as u32) < 256 {
            (line[0] as u32) as u8
        } else {
            0
        }
    } else {
        0
    }
}

/// Step-indexed execution of a foreign body from a given state.
pub open spec fn bf_run(
    code: Seq<u8>,
    jumps: Seq<int>,
    st: BfState,
    input: Seq<Seq<char>>,
    fuel: nat,
) -> (BfState, BfEnd, nat)
    decreases fuel,
{
    if st.pc < 0 || st.pc >= code.len() {
        (st, BfEnd::Done, fuel)
    } else if fuel == 0 {
        (st, BfEnd::Spent, 0)
    } else if !(0 <= st.ptr < st.tape.len()) {
        (st, BfEnd::Fail(ErrM::BfBounds), (fuel - 1) as nat)
    } else {
        let f1 = (fuel - 1) as nat;
        let c = code[st.pc];
        if c == 43 {
            let cell = st.tape[st.ptr];
            let nv: u8 = if cell == 255 {
                0
            } else {
                (cell + 1) as u8
            };
            bf_run(
                code,
                jumps,
                BfState { tape: st.tape.update(st.ptr, nv), pc: st.pc + 1, ..st },
                input,
                f1,
            )
        } else if c == 45 {
            let cell = st.tape[st.ptr];
            let nv: u8 = if cell == 0 {
                255
            } else {
                (cell - 1) as u8
            };
            bf_run(
                code,
                jumps,
                BfState { tape: st.tape.update(st.ptr, nv), pc: st.pc + 1, ..st },
                input,
                f1,
            )
        } else if c == 60 {
            if st.ptr == 0 {
                (st, BfEnd::Fail(ErrM::BfBounds), f1)
            } else {
                bf_run(code, jumps, BfState { ptr: st.ptr - 1, pc: st.pc + 1, ..st }, input, f1)
            }
        } else if c == 62 {
            if st.ptr + 1 >= st.tape.len() {
                (st, BfEnd::Fail(ErrM::BfBounds), f1)
            } else {
                bf_run(code, jumps, BfState { ptr: st.ptr + 1, pc: st.pc + 1, ..st }, input, f1)
            }
        } else if c == 46 {
            let ch = ((st.tape[st.ptr] as u32) as char);
            bf_run(
                code,
                jumps,
                BfState { output: st.output.push(ch), pc: st.pc + 1, ..st },
                input,
                f1,
            )
        } else if c == 44 {
            let b = input_byte(input, st.in_pos);
            let npos: int = if 0 <= st.in_pos < input.len() {
                st.in_pos + 1
            } else {
                st.in_pos
            };
            bf_run(
                code,
                jumps,
                BfState {
                    tape: st.tape.update(st.ptr, b),
                    in_pos: npos,
                    pc: st.pc + 1,
                    ..st
                },
                input,
                f1,
            )
        } else if c == 91 {
            if !(0 <= st.pc < jumps.len() && 0 <= jumps[st.pc] < code.len()) {
                (st, BfEnd::Fail(ErrM::MismatchedBracket), f1)
            } else if st.tape[st.ptr] == 0 {
                bf_run(code, jumps, BfState { pc: jumps[st.pc] + 1, ..st }, input, f1)
            } else {
                bf_run(code, jumps, BfState { pc: st.pc + 1, ..st }, input, f1)
            }
        } else if c == 93 {
            if !(0 <= st.pc < jumps.len() && 0 <= jumps[st.pc] < code.len()) {
                (st, BfEnd::Fail(ErrM::MismatchedBracket), f1)
            } else if st.tape[st.ptr] != 0 {
                bf_run(code, jumps, BfState { pc: jumps[st.pc] + 1, ..st }, input, f1)
            } else {
                bf_run(code, jumps, BfState { pc: st.pc + 1, ..st }, input, f1)
            }
        } else {
            bf_run(code, jumps, BfState { pc: st.pc + 1, ..st }, input, f1)
        }
    }
}

/// The run of a freshly defined foreign body: all cells zero, the pointer
/// and instruction cursor at the start.
pub open spec fn bf_run_fresh(
    code: Seq<u8>,
    jumps: Seq<int>,
    tape_len: int,
    input: Seq<Seq<char>>,
    in_pos: int,
    output: Seq<char>,
    fuel: nat,
) -> (BfState, BfEnd, nat) {
    bf_run(
        code,
        jumps,
        BfState {
            tape: Seq::new(tape_len as nat, |i: int| 0u8),
            ptr: 0,
            pc: 0,
            in_pos,
            output,
        },
        input,
        fuel,
    )
}

/// Execute a foreign body against a fresh zeroed tape, reading from and
/// writing to the interpreter's own input source and output sink.
pub fn run(
    code: &Vec<u8>,
    jumps: &Vec<usize>,
    tape_len: usize,
    input: &Vec<String>,
    in_pos: usize,
    output: &mut Vec<char>,
    fuel: u64,
) -> (r: (usize, BfEndE, u64))
    requires
        in_pos <= input@.len(),
    ensures
        ({
            let (stf, endf, remf) = bf_run_fresh(
                code@,
                jumps_view(jumps@),
                tape_len as int,
                crate::interpret::input_view(input@),
                in_pos as int,
                old(output)@,
                fuel as nat,
            );
            &&& final(output)@ == stf.output
            &&& r.0 as int == stf.in_pos
            &&& bfend_matches(r.1, endf)
            &&& r.2 as nat == remf
            &&& in_pos <= r.0 <= input@.len()
        }),
{
    let ghost inm = crate::interpret::input_view(input@);
    let mut tape: Vec<u8> = Vec::new();
    for k in 0..tape_len
        invariant
            tape@.len() == k,
            forall|j: int| 0 <= j < k ==> tape@[j] == 0,
    {
        tape.push(0);
    }
    proof {
        assert(tape@ =~= Seq::new(tape_len as nat, |i: int| 0u8));
    }
    let mut ptr: usize = 0;
    let mut pc: usize = 0;
    let mut pos: usize = in_pos;
    let mut left: u64 = fuel;
    let ghost start = BfState {
        tape: tape@,
        ptr: ptr as int,
        pc: pc as int,
        in_pos: pos as int,
        output: output@,
    };
    loop
        invariant
            tape@.len() == tape_len,
            ptr <= tape@.len(),
            in_pos <= pos <= input@.len(),
            inm == crate::interpret::input_view(input@),
            inm.len() == input@.len(),
            bf_run_fresh(
                code@,
                jumps_view(jumps@),
                tape_len as int,
                inm,
                in_pos as int,
                old(output)@,
                fuel as nat,
            ) == bf_run(
                code@,
                jumps_view(jumps@),
                BfState {
                    tape: tape@,
                    ptr: ptr as int,
                    pc: pc as int,
                    in_pos: pos as int,
                    output: output@,
                },
                inm,
                left as nat,
            ),
        decreases left,
    {
        let ghost st = BfState {
            tape: tape@,
            ptr: ptr as int,
            pc: pc as int,
            in_pos: pos as int,
            output: output@,
        };
        if pc >= code.len() {
            return (pos, BfEndE::Done, left);
        }
        if left == 0 {
            return (pos, BfEndE::Spent, 0);
        }
        if ptr >= tape.len() {
            return (pos, BfEndE::Bounds, left - 1);
        }
        left = left - 1;
        let c = code[pc];
        if c == 43 {
            let cell = tape[ptr];
            let nv: u8 = if cell == 255 {
                0
            } else {
                cell + 1
            };
            tape[ptr] = nv;
            pc = pc + 1;
        } else if c == 45 {
            let cell = tape[ptr];
            let nv: u8 = if cell == 0 {
                255
            } else {
                cell - 1
            };
            tape[ptr] = nv;
            pc = pc + 1;
        } else if c == 60 {
            if ptr == 0 {
                return (pos, BfEndE::Bounds, left);
            }
            ptr = ptr - 1;
            pc = pc + 1;
        } else if c == 62 {
            if ptr + 1 >= tape.len() {
                return (pos, BfEndE::Bounds, left);
            }
            ptr = ptr + 1;
            pc = pc + 1;
        } else if c == 46 {
            let cell = tape[ptr];
            let ch = cell as char;
            output.push(ch);
            pc = pc + 1;
            proof {
                assert(output@ == st.output.push((st.tape[st.ptr] as u32) as char));
            }
        } else if c == 44 {
            let b: u8;
            if pos < input.len() {
                let line = &input[pos];
                if line.as_str().unicode_len() > 0 {
                    let ch = line.as_str().get_char(0);
                    if (ch as u32) < 256 {
                        b = (ch as u32) as u8;
                    } else {
                        b = 0;
                    }
                } else {
                    b = 0;
                }
                pos = pos + 1;
            } else {
                b = 0;
            }
            proof {
                if 0 <= st.in_pos < inm.len() {
                    assert(inm[st.in_pos] == input@[st.in_pos]@);
                }
                assert(b == input_byte(inm, st.in_pos));
            }
            tape[ptr] = b;
            pc = pc + 1;
        } else if c == 91 {
            if pc >= jumps.len() || jumps[pc] >= code.len() {
                return (pos, BfEndE::Mismatched, left);
            }
            if tape[ptr] == 0 {
                pc = jumps[pc] + 1;
            } else {
                pc = pc + 1;
            }
        } else if c == 93 {
            if pc >= jumps.len() || jumps[pc] >= code.len() {
                return (pos, BfEndE::Mismatched, left);
            }
            if tape[ptr] != 0 {
                pc = jumps[pc] + 1;
            } else {
                pc = pc + 1;
            }
        } else {
            pc = pc + 1;
        }
    }
}

} // verus!
