use crate::brackets::build_pc_map;
use crate::brackets::jump_map;
use crate::brackets::lemma_jump_map_in_range;
use crate::brackets::to_chars;
use crate::error::BfError;
use crate::error::BfStateResult;
use crate::state::BfState;
use crate::state::MachView;
use crate::state::wrap_dec;
use crate::state::wrap_inc;
use crate::tape::tape_read;
use crate::tape::tape_write;
use vstd::prelude::*;

verus! {

/// What one instruction does to the machine: the program counter advances
/// past it (`Next`), is set to a bracket's jump target (`Jump`), or the run
/// ends with its first error (`Fail`, machine untouched).
pub enum StepOut {
    Next(MachView),
    Jump(nat, MachView),
    Fail(BfError),
}

/// The effect of the instruction at `pc` on machine `m`, with `map` the
/// program's jump map. Any character outside the eight instructions is a
/// comment and leaves the machine untouched (the dialect chosen here: no
/// syntax errors). A `[` over a zero cell jumps just past its matching `]`;
/// a `]` jumps back onto its matching `[`, whose condition is then
/// re-evaluated. `<` at position 0 fails with tape underflow; the cursor
/// lives in a machine word, so `>` at the topmost storable position fails
/// with cursor overflow.
pub open spec fn step(prog: Seq<char>, map: Seq<nat>, pc: nat, m: MachView) -> StepOut
    recommends
        pc < prog.len(),
        map.len() == prog.len(),
{
    let c = prog[pc as int];
    if c == '+' {
        StepOut::Next(
            MachView { mem: tape_write(m.mem, m.ptr, wrap_inc(tape_read(m.mem, m.ptr))), ..m },
        )
    } else if c == '-' {
        StepOut::Next(
            MachView { mem: tape_write(m.mem, m.ptr, wrap_dec(tape_read(m.mem, m.ptr))), ..m },
        )
    } else if c == '>' {
        if m.ptr + 1 < usize::MAX {
            StepOut::Next(MachView { ptr: m.ptr + 1, ..m })
        } else {
            StepOut::Fail(BfError::CursorOverflow)
        }
    } else if c == '<' {
        if m.ptr == 0 {
            StepOut::Fail(BfError::Segfault)
        } else {
            StepOut::Next(MachView { ptr: (m.ptr - 1) as nat, ..m })
        }
    } else if c == ',' {
        if m.in_pos < m.input.len() {
            StepOut::Next(
                MachView {
                    mem: tape_write(m.mem, m.ptr, m.input[m.in_pos as int]),
                    in_pos: m.in_pos + 1,
                    ..m
                },
            )
        } else {
            StepOut::Fail(BfError::InputExhausted)
        }
    } else if c == '.' {
        StepOut::Next(MachView { output: m.output.push(tape_read(m.mem, m.ptr)), ..m })
    } else if c == '[' {
        if tape_read(m.mem, m.ptr) == 0 {
            StepOut::Jump(map[pc as int] + 1, m)
        } else {
            StepOut::Next(m)
        }
    } else if c == ']' {
        StepOut::Jump(map[pc as int], m)
    } else {
        StepOut::Next(m)
    }
}

/// Where a run stands after at most `fuel` steps: past the end of the
/// program (`Halted`), stopped at its first error (`Failed`, with the
/// machine as the error left it), or still going (`Running`, with the
/// program counter it stands at).
pub enum RunStatus {
    Halted(MachView),
    Failed(BfError, MachView),
    Running(nat, MachView),
}

/// The run of `prog` from program counter `pc` and machine `m`, for at most
/// `fuel` steps: the dispatch loop as a mathematical function.
pub open spec fn run_n(
    prog: Seq<char>,
    map: Seq<nat>,
    pc: nat,
    m: MachView,
    fuel: nat,
) -> RunStatus
    decreases fuel,
{
    if pc >= prog.len() {
        RunStatus::Halted(m)
    } else if fuel == 0 {
        RunStatus::Running(pc, m)
    } else {
        match step(prog, map, pc, m) {
            StepOut::Next(m2) => run_n(prog, map, pc + 1, m2, (fuel - 1) as nat),
            StepOut::Jump(t, m2) => run_n(prog, map, t, m2, (fuel - 1) as nat),
            StepOut::Fail(e) => RunStatus::Failed(e, m),
        }
    }
}

/// Fuel composes: a run that is still going after `f1` steps continues, for
/// `f2` more steps, exactly where it stood.
pub proof fn lemma_run_n_add(
    prog: Seq<char>,
    map: Seq<nat>,
    pc: nat,
    m: MachView,
    f1: nat,
    f2: nat,
)
    requires
        run_n(prog, map, pc, m, f1) is Running,
    ensures
        ({
            let r = run_n(prog, map, pc, m, f1);
            run_n(prog, map, pc, m, f1 + f2) == run_n(prog, map, r->Running_0, r->Running_1, f2)
        }),
    decreases f1,
{
    if pc >= prog.len() {
    } else if f1 == 0 {
    } else {
        match step(prog, map, pc, m) {
            StepOut::Next(m2) => {
                lemma_run_n_add(prog, map, pc + 1, m2, (f1 - 1) as nat, f2);
            },
            StepOut::Jump(t, m2) => {
                lemma_run_n_add(prog, map, t, m2, (f1 - 1) as nat, f2);
            },
            StepOut::Fail(_) => {
            },
        }
    }
}

/// A run that has ended — normally or with an error — stays ended: more
/// fuel changes nothing.
pub proof fn lemma_run_n_stable(
    prog: Seq<char>,
    map: Seq<nat>,
    pc: nat,
    m: MachView,
    f1: nat,
    f2: nat,
)
    requires
        f1 <= f2,
        !(run_n(prog, map, pc, m, f1) is Running),
    ensures
        run_n(prog, map, pc, m, f2) == run_n(prog, map, pc, m, f1),
    decreases f1,
{
    if pc >= prog.len() {
    } else if f1 == 0 {
    } else {
        match step(prog, map, pc, m) {
            StepOut::Next(m2) => {
                lemma_run_n_stable(prog, map, pc + 1, m2, (f1 - 1) as nat, (f2 - 1) as nat);
            },
            StepOut::Jump(t, m2) => {
                lemma_run_n_stable(prog, map, t, m2, (f1 - 1) as nat, (f2 - 1) as nat);
            },
            StepOut::Fail(_) => {
            },
        }
    }
}

/// Law of purity: execution is deterministic. Two runs of the same program
/// from the same machine that both end — normally or with an error — end
/// identically: the same outcome, the same final tape and cursor, the same
/// output, however much fuel each was given. Running a well-formed program
/// twice against freshly constructed, equal states therefore produces
/// byte-identical output and identical final tape contents.
pub proof fn lemma_run_deterministic(
    prog: Seq<char>,
    map: Seq<nat>,
    pc: nat,
    m: MachView,
    f1: nat,
    f2: nat,
)
    requires
        !(run_n(prog, map, pc, m, f1) is Running),
        !(run_n(prog, map, pc, m, f2) is Running),
    ensures
        run_n(prog, map, pc, m, f1) == run_n(prog, map, pc, m, f2),
{
    if f1 <= f2 {
        lemma_run_n_stable(prog, map, pc, m, f1, f2);
    } else {
        lemma_run_n_stable(prog, map, pc, m, f2, f1);
    }
}

/// What a run of `prog` with `budget` steps, taking the machine from `pre`
/// to `post` with result `r`, must amount to. A program whose brackets do
/// not pair up is rejected with mismatched braces before anything else
/// happens, the machine untouched. Otherwise the result and the final
/// machine are exactly the outcome that `run_n` gives the starting machine
/// under the program's jump map: `Ok(())` when the program counter left the
/// program, the first error where a step failed (everything done before it,
/// output included, stays), and the step-limit error when the budget ran
/// out first.
pub open spec fn run_post(
    prog: Seq<char>,
    pre: MachView,
    post: MachView,
    r: BfStateResult,
    budget: nat,
) -> bool {
    match jump_map(prog) {
        None => r == Err::<(), BfError>(BfError::MismatchedBraces) && post == pre,
        Some(map) => {
            let outcome = run_n(prog, map, 0, pre, budget);
            match r {
                Ok(()) => outcome == RunStatus::Halted(post),
                Err(e) => if e == BfError::StepLimit {
                    outcome is Running && outcome->Running_1 == post
                } else {
                    outcome == RunStatus::Failed(e, post)
                },
            }
        },
    }
}

/// Runs `program` against `state` for at most `max_steps` instructions;
/// `run_post` says exactly what comes out.
pub fn run_bounded(program: &str, state: &mut BfState, max_steps: u64) -> (r: BfStateResult)
    requires
        old(state).pointer < usize::MAX,
    ensures
        run_post(program@, old(state)@, final(state)@, r, max_steps as nat),
{
    let map_vec = match build_pc_map(program) {
        Err(e) => {
            return Err(e);
        },
        Ok(m) => m,
    };
    let ghost gmap: Seq<nat> = map_vec@.map_values(|x: usize| x as nat);
    proof {
        lemma_jump_map_in_range(program@);
    }
    let symbols = to_chars(program);
    let n = symbols.len();
    let mut pc: usize = 0;
    let mut fuel: u64 = max_steps;
    while pc < n
        invariant
            n == symbols@.len(),
            symbols@ == program@,
            jump_map(program@) == Some(gmap),
            gmap == map_vec@.map_values(|x: usize| x as nat),
            map_vec@.len() == n,
            forall|k: int| 0 <= k < gmap.len() ==> gmap[k] < n,
            state.pointer < usize::MAX,
            pc <= n,
            fuel <= max_steps,
            run_n(program@, gmap, 0, old(state)@, (max_steps - fuel) as nat) == run_n(
                program@,
                gmap,
                pc as nat,
                state@,
                0,
            ),
        decreases fuel,
    {
        if fuel == 0 {
            return Err(BfError::StepLimit);
        }
        proof {
            lemma_run_n_add(program@, gmap, 0, old(state)@, (max_steps - fuel) as nat, 1);
        }
        let ghost mpre = state@;
        let ghost done_next = (max_steps - fuel + 1) as nat;
        fuel = fuel - 1;
        let sym = symbols[pc];
        if sym == '+' {
            state.inc();
            pc = pc + 1;
        } else if sym == '-' {
            state.dec();
            pc = pc + 1;
        } else if sym == '>' {
            if state.pointer < usize::MAX - 1 {
                state.right();
                pc = pc + 1;
            } else {
                proof {
                    lemma_run_n_stable(program@, gmap, 0, old(state)@, done_next, max_steps as nat);
                }
                return Err(BfError::CursorOverflow);
            }
        } else if sym == '<' {
            match state.left() {
                Err(e) => {
                    proof {
                        lemma_run_n_stable(
                            program@,
                            gmap,
                            0,
                            old(state)@,
                            done_next,
                            max_steps as nat,
                        );
                    }
                    return Err(e);
                },
                Ok(()) => {
                    pc = pc + 1;
                },
            }
        } else if sym == ',' {
            if state.input_pos < state.input.len() {
                let b = state.input[state.input_pos];
                state.set_curr(b);
                state.input_pos = state.input_pos + 1;
                pc = pc + 1;
                proof {
                    assert(state@ =~= (MachView {
                        mem: tape_write(mpre.mem, mpre.ptr, mpre.input[mpre.in_pos as int]),
                        in_pos: mpre.in_pos + 1,
                        ..mpre
                    }));
                }
            } else {
                proof {
                    lemma_run_n_stable(program@, gmap, 0, old(state)@, done_next, max_steps as nat);
                }
                return Err(BfError::InputExhausted);
            }
        } else if sym == '.' {
            let b = state.curr();
            state.output.push(b);
            pc = pc + 1;
            proof {
                assert(state@ =~= (MachView {
                    output: mpre.output.push(tape_read(mpre.mem, mpre.ptr)),
                    ..mpre
                }));
            }
        } else if sym == '[' {
            if state.curr() == 0 {
                let t = map_vec[pc];
                pc = t + 1;
            } else {
                pc = pc + 1;
            }
        } else if sym == ']' {
            pc = map_vec[pc];
        } else {
            pc = pc + 1;
        }
    }
    proof {
        lemma_run_n_stable(
            program@,
            gmap,
            0,
            old(state)@,
            (max_steps - fuel) as nat,
            max_steps as nat,
        );
    }
    Ok(())
}

/// Runs `program` against `state` to completion, with the largest step
/// budget a machine word holds — `u64::MAX` steps, beyond any program one
/// waits for. The contract is `run_bounded`'s with that budget.
pub fn run(program: &str, state: &mut BfState) -> (r: BfStateResult)
    requires
        old(state).pointer < usize::MAX,
    ensures
        run_post(program@, old(state)@, final(state)@, r, u64::MAX as nat),
{
    run_bounded(program, state, u64::MAX)
}

} // verus!
