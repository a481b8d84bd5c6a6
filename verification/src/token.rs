use vstd::prelude::*;

verus! {

/// One executable instruction of the tape language.
#[derive(Copy, Clone, Debug, PartialEq, Eq, Structural)]
pub enum Token {
    IncDataPtr,
    DecDataPtr,
    IncByte,
    DecByte,
    WriteByte,
    ReadByte,
    BeginLoop,
    EndLoop,
}

/// What one `step` call reports back to the driving caller.
#[derive(Copy, Clone, Debug, PartialEq, Eq, Structural)]
pub enum StepResult {
    NeedsInput,
    Output(u8),
    Continue,
    Finished,
}

/// Why construction rejected a source text.
#[derive(Copy, Clone, Debug, PartialEq, Eq, Structural)]
pub enum LoadError {
    UnmatchedOpen,
    UnmatchedClose,
}

/// Why a run must abort.
#[derive(Copy, Clone, Debug, PartialEq, Eq, Structural)]
pub enum RuntimeError {
    TapeOverflow,
    TapeUnderflow,
}

impl LoadError {
    /// A short description of the error, for a driver to show.
    pub fn message(&self) -> (r: &'static str)
        ensures
            *self == LoadError::UnmatchedOpen ==> r@ == "Missing ']'"@,
            *self == LoadError::UnmatchedClose ==> r@ == "Missing '['"@,
    {
        match self {
            LoadError::UnmatchedOpen => "Missing ']'",
            LoadError::UnmatchedClose => "Missing '['",
        }
    }
}

impl RuntimeError {
    /// A short description of the error, for a driver to show.
    pub fn message(&self) -> (r: &'static str)
        ensures
            *self == RuntimeError::TapeOverflow ==> r@ == "Memory overflow"@,
            *self == RuntimeError::TapeUnderflow ==> r@ == "Memory underflow"@,
    {
        match self {
            RuntimeError::TapeOverflow => "Memory overflow",
            RuntimeError::TapeUnderflow => "Memory underflow",
        }
    }
}

/// The instruction a source byte stands for, or `None` for a byte the
/// tokenizer silently drops.
pub open spec fn token_of_byte(b: u8) -> Option<Token> {
    if b == 62u8 {
        Some(Token::IncDataPtr)
    } else if b == 60u8 {
        Some(Token::DecDataPtr)
    } else if b == 43u8 {
        Some(Token::IncByte)
    } else if b == 45u8 {
        Some(Token::DecByte)
    } else if b == 46u8 {
        Some(Token::WriteByte)
    } else if b == 44u8 {
        Some(Token::ReadByte)
    } else if b == 91u8 {
        Some(Token::BeginLoop)
    } else if b == 93u8 {
        Some(Token::EndLoop)
    } else {
        None
    }
}

/// The instruction sequence a source stands for: each recognized byte in
/// order, every other byte dropped.
pub open spec fn tokenize(s: Seq<u8>) -> Seq<Token>
    decreases s.len(),
{
    if s.len() == 0 {
        Seq::empty()
    } else {
        match token_of_byte(s.last()) {
            Some(t) => tokenize(s.drop_last()).push(t),
            None => tokenize(s.drop_last()),
        }
    }
}

/// Tokenizing never lengthens a program: at most one instruction comes out
/// of each source byte.
pub proof fn lemma_tokenize_length(s: Seq<u8>)
    ensures
        tokenize(s).len() <= s.len(),
    decreases s.len(),
{
    if s.len() > 0 {
        lemma_tokenize_length(s.drop_last());
    }
}

/// The tokenizer is exactly the filter-then-map of its input: it keeps the
/// recognized bytes, in their original relative order, and produces the
/// instruction each one stands for.
pub proof fn lemma_tokenize_is_filter_map(s: Seq<u8>)
    ensures
        tokenize(s) =~= s.filter(|b: u8| token_of_byte(b) is Some).map_values(
            |b: u8| token_of_byte(b).unwrap(),
        ),
    decreases s.len(),
{
    reveal(Seq::filter);
    let pred = |b: u8| token_of_byte(b) is Some;
    let f = |b: u8| token_of_byte(b).unwrap();
    if s.len() > 0 {
        lemma_tokenize_is_filter_map(s.drop_last());
        if pred(s.last()) {
            assert(s.drop_last().filter(pred).push(s.last()).map_values(f) =~= s.drop_last().filter(
                pred,
            ).map_values(f).push(f(s.last())));
        }
    }
}

} // verus!
