use vstd::prelude::*;

verus! {

/// The ways a run of a Brainfuck program can end early. Every error is
/// fatal: the dispatch loop stops at the first one and reports it.
#[derive(Clone, Copy, Debug, PartialEq, Eq, Structural)]
pub enum BfError {
    /// A `]` has no open `[` to match, or a `[` is still open at the end of
    /// the program. Detected by the bracket scan before execution starts.
    MismatchedBraces,
    /// Tape underflow: `<` was executed while the cursor stood at position
    /// 0. Raised then and only then.
    Segfault,
    /// The cursor is a machine word, and `>` would have moved it past the
    /// largest position a byte can be stored at. No real program gets there;
    /// the kind exists so that the machine limit is its own failure and
    /// `Segfault` keeps its one meaning.
    CursorOverflow,
    /// A `,` was executed after the input buffer had been used up. Running
    /// out of input is fatal rather than substituting a sentinel byte.
    InputExhausted,
    /// The engine's step budget was used up before the program ended. The
    /// budget exists so that the dispatch loop provably terminates; `run`
    /// grants `u64::MAX` steps, which no real program exhausts.
    StepLimit,
}

/// The outcome of one instruction or of a whole run: `Ok(())`, or the first
/// error encountered.
pub type BfStateResult = Result<(), BfError>;

} // verus!
