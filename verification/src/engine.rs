use crate::brackets::bal;
use crate::brackets::balanced;
use crate::brackets::has_unmatched_close;
use crate::brackets::map_matches;
use crate::brackets::pair_at;
use crate::brackets::token_delta;
use crate::token::LoadError;
use crate::token::RuntimeError;
use crate::token::StepResult;
use crate::token::Token;
use crate::token::tokenize;
use vstd::prelude::*;

verus! {

/// Number of byte cells on the tape.
pub const TAPE_LEN: usize = 30000;

/// Byte increment, wrapping modulo 256.
pub open spec fn wrap_inc(b: u8) -> u8 {
    ((b as int + 1) % 256) as u8
}

/// Byte decrement, wrapping modulo 256.
pub open spec fn wrap_dec(b: u8) -> u8 {
    ((b as int + 255) % 256) as u8
}

/// A pending loop-open on the scan stack: `s` is the index of the `t`-th
/// open still unmatched after scanning `p[0..i)`.
spec fn pending_open(p: Seq<Token>, s: int, t: int, i: int) -> bool {
    &&& 0 <= s < i
    &&& p[s] == Token::BeginLoop
    &&& bal(p, s) == t
    &&& forall|k: int| s < k <= i ==> bal(p, k) > t
}

/// A loop-close whose map entries are already final: reciprocal with its
/// open.
spec fn close_matched(p: Seq<Token>, m: Seq<usize>, c: int) -> bool {
    &&& pair_at(p, m[c] as int, c)
    &&& m[m[c] as int] as int == c
}

/// A loop-open whose map entries are already final: reciprocal with its
/// close.
spec fn open_matched(p: Seq<Token>, m: Seq<usize>, o: int) -> bool {
    &&& pair_at(p, o, m[o] as int)
    &&& m[m[o] as int] as int == o
}

/// The interpreter: an instruction sequence with its precomputed bracket
/// map, a tape of byte cells, a program counter and a data pointer.
#[derive(Debug)]
pub struct BfInterpreter {
    /// Program counter: index of the next instruction, or the program
    /// length once execution has finished.
    pub pc: usize,
    /// Data pointer: index of the active tape cell.
    pub data_ptr: usize,
    /// The instruction sequence; never mutated after construction.
    pub program: Vec<Token>,
    /// The tape.
    pub cells: Vec<u8>,
    /// For each loop instruction, the index of its partner.
    pub matching_parens: Vec<usize>,
}

impl BfInterpreter {
    /// The invariants every constructed interpreter keeps: indices in
    /// range, tape length fixed, bracket map total over loop tokens.
    pub open spec fn wf(self) -> bool {
        &&& self.cells@.len() == TAPE_LEN
        &&& self.data_ptr < TAPE_LEN
        &&& self.pc <= self.program@.len()
        &&& map_matches(self.program@, self.matching_parens@)
    }

    /// Tokenize source bytes into the instruction sequence; every
    /// unrecognized byte is silently dropped.
    pub fn parse_program(program: &[u8]) -> (r: Vec<Token>)
        ensures
            r@ == tokenize(program@),
    {
        let mut out: Vec<Token> = Vec::new();
        let n = program.len();
        let mut i: usize = 0;
        while i < n
            invariant
                i <= n,
                n == program@.len(),
                out@ == tokenize(program@.subrange(0, i as int)),
            decreases n - i,
        {
            let b = program[i];
            let t_opt: Option<Token> = match b {
                62u8 => Some(Token::IncDataPtr),
                60u8 => Some(Token::DecDataPtr),
                43u8 => Some(Token::IncByte),
                45u8 => Some(Token::DecByte),
                46u8 => Some(Token::WriteByte),
                44u8 => Some(Token::ReadByte),
                91u8 => Some(Token::BeginLoop),
                93u8 => Some(Token::EndLoop),
                _ => None,
            };
            proof {
                let pre = program@.subrange(0, i as int);
                let ext = program@.subrange(0, i as int + 1);
                assert(ext.drop_last() =~= pre);
                assert(ext.last() == program@[i as int]);
            }
            match t_opt {
                Some(t) => out.push(t),
                None => (),
            }
            i = i + 1;
        }
        proof {
            assert(program@.subrange(0, n as int) =~= program@);
        }
        out
    }

    /// Match each loop-open with its loop-close by one left-to-right scan
    /// with a stack of pending opens: fail on the first close that finds no
    /// pending open, or, once the scan is done, when opens are left
    /// pending.
    pub fn find_matching_parens(program: &[Token]) -> (r: Result<Vec<usize>, LoadError>)
        ensures
            match r {
                Ok(m) => balanced(program@) && map_matches(program@, m@),
                Err(e) => match e {
                    LoadError::UnmatchedClose => has_unmatched_close(program@),
                    LoadError::UnmatchedOpen => !has_unmatched_close(program@) && bal(
                        program@,
                        program@.len() as int,
                    ) > 0,
                },
            },
    {
        let ghost p = program@;
        let n = program.len();
        let mut map: Vec<usize> = Vec::new();
        while map.len() < n
            invariant
                map@.len() <= n,
            decreases n - map@.len(),
        {
            map.push(0);
        }
        let mut stack: Vec<usize> = Vec::new();
        let mut i: usize = 0;
        while i < n
            invariant
                n == p.len(),
                p == program@,
                i <= n,
                map@.len() == n,
                stack@.len() == bal(p, i as int),
                forall|k: int| 0 <= k <= i ==> bal(p, k) >= 0,
                forall|t: int|
                    #![trigger stack@[t]]
                    0 <= t < stack@.len() ==> pending_open(p, stack@[t] as int, t, i as int),
                forall|c: int|
                    #![trigger p[c]]
                    0 <= c < i && p[c] == Token::EndLoop ==> close_matched(p, map@, c),
                forall|o: int|
                    #![trigger p[o]]
                    0 <= o < i && p[o] == Token::BeginLoop ==> stack@.contains(o as usize) || (
                    open_matched(p, map@, o) && map@[o] < i),
            decreases n - i,
        {
            let t = program[i];
            proof {
                assert(bal(p, i as int + 1) == bal(p, i as int) + token_delta(p[i as int]));
            }
            if t == Token::BeginLoop {
                let ghost oldstk = stack@;
                stack.push(i);
                proof {
                    assert forall|t2: int| 0 <= t2 < stack@.len() implies pending_open(
                        p,
                        stack@[t2] as int,
                        t2,
                        i as int + 1,
                    ) by {
                        if t2 < oldstk.len() {
                            assert(stack@[t2] == oldstk[t2]);
                            assert(pending_open(p, oldstk[t2] as int, t2, i as int));
                        } else {
                            assert(stack@[t2] == i as usize);
                        }
                    }
                    assert forall|o: int|
                        #![trigger p[o]]
                        0 <= o < i + 1 && p[o] == Token::BeginLoop implies stack@.contains(
                        o as usize,
                    ) || (open_matched(p, map@, o) && map@[o] < i + 1) by {
                        if o == i as int {
                            assert(stack@[stack@.len() - 1] == i as usize);
                            assert(stack@.contains(i as usize));
                        } else if oldstk.contains(o as usize) {
                            let t2 = choose|t2: int|
                                0 <= t2 < oldstk.len() && oldstk[t2] == o as usize;
                            assert(stack@[t2] == o as usize);
                            assert(stack@.contains(o as usize));
                        }
                    }
                }
            } else if t == Token::EndLoop {
                if stack.len() == 0 {
                    proof {
                        assert(bal(p, i as int + 1) < 0);
                        assert(has_unmatched_close(p));
                    }
                    return Err(LoadError::UnmatchedClose);
                }
                let ghost oldstk = stack@;
                let ghost oldmap = map@;
                let ghost ttop = oldstk.len() - 1;
                let j = stack.pop().unwrap();
                map[j] = i;
                map[i] = j;
                proof {
                    assert(j == oldstk[ttop]);
                    assert(pending_open(p, j as int, ttop, i as int));
                    assert(map@ == oldmap.update(j as int, i as usize).update(i as int, j));
                    assert(bal(p, i as int + 1) == ttop);
                    assert(pair_at(p, j as int, i as int));
                    assert forall|t2: int| 0 <= t2 < stack@.len() implies pending_open(
                        p,
                        stack@[t2] as int,
                        t2,
                        i as int + 1,
                    ) by {
                        assert(stack@[t2] == oldstk[t2]);
                        assert(pending_open(p, oldstk[t2] as int, t2, i as int));
                        assert(bal(p, i as int + 1) == ttop > t2);
                    }
                    assert forall|c: int|
                        #![trigger p[c]]
                        0 <= c < i + 1 && p[c] == Token::EndLoop implies close_matched(
                        p,
                        map@,
                        c,
                    ) by {
                        if c == i as int {
                            assert(map@[i as int] == j);
                            assert(map@[j as int] == i as usize);
                        } else {
                            assert(close_matched(p, oldmap, c));
                            assert(c != j as int);
                            if oldmap[c] as int == j as int {
                                // then (j, c) would be a finished pair, yet j
                                // is still pending: the balance never returns
                                // to j's level inside the scanned prefix
                                assert(bal(p, c + 1) == bal(p, j as int));
                                assert(bal(p, c + 1) > ttop);
                                assert(false);
                            }
                            assert(map@[c] == oldmap[c]);
                            assert(oldmap[c] as int != i as int);
                            assert(map@[oldmap[c] as int] == oldmap[oldmap[c] as int]);
                        }
                    }
                    assert forall|o: int|
                        #![trigger p[o]]
                        0 <= o < i + 1 && p[o] == Token::BeginLoop implies stack@.contains(
                        o as usize,
                    ) || (open_matched(p, map@, o) && map@[o] < i + 1) by {
                        if o == j as int {
                            assert(map@[j as int] == i as usize);
                            assert(map@[i as int] == j);
                            assert(open_matched(p, map@, o));
                        } else if o < i {
                            if oldstk.contains(o as usize) {
                                let t2 = choose|t2: int|
                                    0 <= t2 < oldstk.len() && oldstk[t2] == o as usize;
                                assert(pending_open(p, oldstk[t2] as int, t2, i as int));
                                if t2 == ttop {
                                    assert(o == j as int);
                                } else {
                                    assert(stack@[t2] == oldstk[t2]);
                                    assert(stack@.contains(o as usize));
                                }
                            } else {
                                assert(open_matched(p, oldmap, o) && oldmap[o] < i);
                                if oldmap[o] as int == j as int {
                                    assert(p[oldmap[o] as int] == Token::EndLoop);
                                    assert(false);
                                }
                                assert(map@[o] == oldmap[o]);
                                assert(map@[oldmap[o] as int] == oldmap[oldmap[o] as int]);
                            }
                        }
                    }
                }
            } else {
                proof {
                    assert(token_delta(p[i as int]) == 0);
                    assert forall|t2: int| 0 <= t2 < stack@.len() implies pending_open(
                        p,
                        stack@[t2] as int,
                        t2,
                        i as int + 1,
                    ) by {
                        assert(pending_open(p, stack@[t2] as int, t2, i as int));
                    }
                }
            }
            i = i + 1;
        }
        if stack.len() > 0 {
            return Err(LoadError::UnmatchedOpen);
        }
        proof {
            assert forall|ii: int|
                #![trigger map@[ii]]
                0 <= ii < p.len() && p[ii] == Token::BeginLoop implies pair_at(
                p,
                ii,
                map@[ii] as int,
            ) && map@[map@[ii] as int] as int == ii by {
                assert(!stack@.contains(ii as usize));
                assert(open_matched(p, map@, ii));
            }
            assert forall|jj: int|
                #![trigger map@[jj]]
                0 <= jj < p.len() && p[jj] == Token::EndLoop implies pair_at(
                p,
                map@[jj] as int,
                jj,
            ) && map@[map@[jj] as int] as int == jj by {
                assert(close_matched(p, map@, jj));
            }
            assert(map_matches(p, map@));
        }
        Ok(map)
    }

    /// Build an interpreter from source bytes: tokenize, match the
    /// brackets, zero the tape, and start both indices at zero. Fails
    /// exactly when the brackets are unbalanced; instruction content never
    /// fails.
    pub fn new(program: &[u8]) -> (r: Result<BfInterpreter, LoadError>)
        ensures
            match r {
                Ok(e) => {
                    &&& e.wf()
                    &&& e.program@ == tokenize(program@)
                    &&& balanced(e.program@)
                    &&& e.pc == 0
                    &&& e.data_ptr == 0
                    &&& e.cells@ == Seq::new(TAPE_LEN as nat, |k: int| 0u8)
                },
                Err(e) => match e {
                    LoadError::UnmatchedClose => has_unmatched_close(tokenize(program@)),
                    LoadError::UnmatchedOpen => !has_unmatched_close(tokenize(program@)) && bal(
                        tokenize(program@),
                        tokenize(program@).len() as int,
                    ) > 0,
                },
            },
    {
        let prog = Self::parse_program(program);
        let matching_parens = match Self::find_matching_parens(prog.as_slice()) {
            Ok(m) => m,
            Err(e) => {
                return Err(e);
            },
        };
        let mut cells: Vec<u8> = Vec::new();
        while cells.len() < TAPE_LEN
            invariant
                cells@.len() <= TAPE_LEN,
                forall|k: int| 0 <= k < cells@.len() ==> cells@[k] == 0u8,
            decreases TAPE_LEN - cells@.len(),
        {
            cells.push(0u8);
        }
        proof {
            assert(cells@ =~= Seq::new(TAPE_LEN as nat, |k: int| 0u8));
        }
        Ok(
            BfInterpreter {
                pc: 0,
                data_ptr: 0,
                program: prog,
                cells,
                matching_parens,
            },
        )
    }

    /// Store one input byte in the cell at the current data pointer. The
    /// caller owes this call exactly once after `step` reports
    /// `NeedsInput`, before stepping on.
    pub fn set_input(&mut self, input: u8)
        requires
            old(self).wf(),
        ensures
            final(self).wf(),
            final(self).cells@ == old(self).cells@.update(old(self).data_ptr as int, input),
            final(self).pc == old(self).pc,
            final(self).data_ptr == old(self).data_ptr,
            final(self).program == old(self).program,
            final(self).matching_parens == old(self).matching_parens,
    {
        let dp = self.data_ptr;
        self.cells[dp] = input;
    }
}

/// The transition relation of `step`: how one call relates the state it
/// started from, the state it left behind and the result it returned.
pub open spec fn step_rel(
    pre: BfInterpreter,
    post: BfInterpreter,
    r: Result<StepResult, RuntimeError>,
) -> bool {
    let p = pre.program@;
    let dp = pre.data_ptr as int;
    if pre.pc >= p.len() {
        post == pre && r == Ok::<StepResult, RuntimeError>(StepResult::Finished)
    } else {
        match p[pre.pc as int] {
            Token::IncDataPtr => {
                if pre.data_ptr + 1 == TAPE_LEN {
                    post == pre && r == Err::<StepResult, RuntimeError>(RuntimeError::TapeOverflow)
                } else {
                    &&& same_code(pre, post)
                    &&& post.cells == pre.cells
                    &&& post.data_ptr == pre.data_ptr + 1
                    &&& post.pc == pre.pc + 1
                    &&& r == Ok::<StepResult, RuntimeError>(StepResult::Continue)
                }
            },
            Token::DecDataPtr => {
                if pre.data_ptr == 0 {
                    post == pre && r == Err::<StepResult, RuntimeError>(RuntimeError::TapeUnderflow)
                } else {
                    &&& same_code(pre, post)
                    &&& post.cells == pre.cells
                    &&& post.data_ptr == pre.data_ptr - 1
                    &&& post.pc == pre.pc + 1
                    &&& r == Ok::<StepResult, RuntimeError>(StepResult::Continue)
                }
            },
            Token::IncByte => {
                &&& same_code(pre, post)
                &&& post.cells@ == pre.cells@.update(dp, wrap_inc(pre.cells@[dp]))
                &&& post.data_ptr == pre.data_ptr
                &&& post.pc == pre.pc + 1
                &&& r == Ok::<StepResult, RuntimeError>(StepResult::Continue)
            },
            Token::DecByte => {
                &&& same_code(pre, post)
                &&& post.cells@ == pre.cells@.update(dp, wrap_dec(pre.cells@[dp]))
                &&& post.data_ptr == pre.data_ptr
                &&& post.pc == pre.pc + 1
                &&& r == Ok::<StepResult, RuntimeError>(StepResult::Continue)
            },
            Token::WriteByte => {
                &&& same_code(pre, post)
                &&& post.cells == pre.cells
                &&& post.data_ptr == pre.data_ptr
                &&& post.pc == pre.pc + 1
                &&& r == Ok::<StepResult, RuntimeError>(StepResult::Output(pre.cells@[dp]))
            },
            Token::ReadByte => {
                &&& same_code(pre, post)
                &&& post.cells == pre.cells
                &&& post.data_ptr == pre.data_ptr
                &&& post.pc == pre.pc + 1
                &&& r == Ok::<StepResult, RuntimeError>(StepResult::NeedsInput)
            },
            Token::BeginLoop => {
                &&& same_code(pre, post)
                &&& post.cells == pre.cells
                &&& post.data_ptr == pre.data_ptr
                &&& post.pc == if pre.cells@[dp] == 0 {
                    pre.matching_parens@[pre.pc as int] + 1
                } else {
                    pre.pc + 1
                }
                &&& r == Ok::<StepResult, RuntimeError>(StepResult::Continue)
            },
            Token::EndLoop => {
                &&& same_code(pre, post)
                &&& post.cells == pre.cells
                &&& post.data_ptr == pre.data_ptr
                &&& post.pc == if pre.cells@[dp] != 0 {
                    pre.matching_parens@[pre.pc as int] + 1
                } else {
                    pre.pc + 1
                }
                &&& r == Ok::<StepResult, RuntimeError>(StepResult::Continue)
            },
        }
    }
}

/// The parts of the state `step` never touches: the program and its
/// bracket map.
pub open spec fn same_code(pre: BfInterpreter, post: BfInterpreter) -> bool {
    &&& post.program == pre.program
    &&& post.matching_parens == pre.matching_parens
}

impl BfInterpreter {
    /// Execute at most one instruction, exactly as `step_rel` relates the
    /// old state, the new state and the result: past the program's end it
    /// reports `Finished` and changes nothing; a pointer move off the tape
    /// reports the fatal error and changes nothing; every other
    /// instruction commits its effect and advances the counter.
    pub fn step(&mut self) -> (r: Result<StepResult, RuntimeError>)
        requires
            old(self).wf(),
        ensures
            final(self).wf(),
            step_rel(*old(self), *final(self), r),
    {
        if self.pc >= self.program.len() {
            return Ok(StepResult::Finished);
        }
        let t = self.program[self.pc];
        match t {
            Token::IncDataPtr => {
                if self.data_ptr == TAPE_LEN - 1 {
                    return Err(RuntimeError::TapeOverflow);
                }
                self.data_ptr = self.data_ptr + 1;
                self.pc = self.pc + 1;
            },
            Token::DecDataPtr => {
                if self.data_ptr == 0 {
                    return Err(RuntimeError::TapeUnderflow);
                }
                self.data_ptr = self.data_ptr - 1;
                self.pc = self.pc + 1;
            },
            Token::IncByte => {
                let c = self.cells[self.data_ptr];
                let nc: u8 = if c == 255 {
                    0
                } else {
                    c + 1
                };
                let dp = self.data_ptr;
                self.cells[dp] = nc;
                self.pc = self.pc + 1;
            },
            Token::DecByte => {
                let c = self.cells[self.data_ptr];
                let nc: u8 = if c == 0 {
                    255
                } else {
                    c - 1
                };
                let dp = self.data_ptr;
                self.cells[dp] = nc;
                self.pc = self.pc + 1;
            },
            Token::WriteByte => {
                self.pc = self.pc + 1;
                return Ok(StepResult::Output(self.cells[self.data_ptr]));
            },
            Token::ReadByte => {
                self.pc = self.pc + 1;
                return Ok(StepResult::NeedsInput);
            },
            Token::BeginLoop => {
                if self.cells[self.data_ptr] == 0 {
                    let j = self.matching_parens[self.pc];
                    proof {
                        assert(pair_at(self.program@, self.pc as int, j as int));
                    }
                    self.pc = j + 1;
                } else {
                    self.pc = self.pc + 1;
                }
            },
            Token::EndLoop => {
                if self.cells[self.data_ptr] != 0 {
                    let j = self.matching_parens[self.pc];
                    proof {
                        assert(pair_at(self.program@, j as int, self.pc as int));
                    }
                    self.pc = j + 1;
                } else {
                    self.pc = self.pc + 1;
                }
            },
        }
        Ok(StepResult::Continue)
    }
}

/// `Finished` is a terminal fixed point: a step that reports it leaves the
/// state untouched, and every further step from that state again touches
/// nothing and again reports `Finished`.
pub proof fn lemma_finished_is_terminal(
    pre: BfInterpreter,
    post: BfInterpreter,
    r: Result<StepResult, RuntimeError>,
)
    requires
        step_rel(pre, post, r),
        r == Ok::<StepResult, RuntimeError>(StepResult::Finished),
    ensures
        post == pre,
        pre.pc >= pre.program@.len(),
        forall|q: BfInterpreter, r2: Result<StepResult, RuntimeError>|
            #[trigger] step_rel(post, q, r2) ==> q == post && r2 == Ok::<
                StepResult,
                RuntimeError,
            >(StepResult::Finished),
{
    if pre.pc < pre.program@.len() {
        match pre.program@[pre.pc as int] {
            Token::IncDataPtr => {},
            Token::DecDataPtr => {},
            Token::IncByte => {},
            Token::DecByte => {},
            Token::WriteByte => {},
            Token::ReadByte => {},
            Token::BeginLoop => {},
            Token::EndLoop => {},
        }
    }
}

} // verus!
