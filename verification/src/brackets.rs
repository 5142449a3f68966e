use crate::error::BfError;
use vstd::prelude::*;

verus! {

broadcast use vstd::string::axiom_spec_iter;

/// The bracket scan from position `i` onward, carrying the stack of open
/// `[` positions and the jump map filled in so far. On `[` the position is
/// pushed; on `]` the scan fails if nothing is open, and otherwise records
/// the bidirectional pairing between the popped `[` and this `]`. At the end
/// of the program the scan fails if a `[` is still open. This is the model
/// of bracket validation: a program is well-bracketed exactly when the scan
/// from a fresh state yields a map.
pub open spec fn bracket_scan(prog: Seq<char>, i: nat, stack: Seq<nat>, map: Seq<nat>) -> Option<
    Seq<nat>,
>
    decreases prog.len() - i,
{
    if i >= prog.len() {
        if stack.len() == 0 {
            Some(map)
        } else {
            None
        }
    } else if prog[i as int] == '[' {
        bracket_scan(prog, i + 1, stack.push(i), map)
    } else if prog[i as int] == ']' {
        if stack.len() == 0 {
            None
        } else {
            bracket_scan(
                prog,
                i + 1,
                stack.drop_last(),
                map.update(i as int, stack.last()).update(stack.last() as int, i),
            )
        }
    } else {
        bracket_scan(prog, i + 1, stack, map)
    }
}

/// The jump map of a program: for every `[` the position of its matching
/// `]` and vice versa (other positions hold 0), or `None` when the brackets
/// do not pair up.
pub open spec fn jump_map(prog: Seq<char>) -> Option<Seq<nat>> {
    bracket_scan(prog, 0, Seq::empty(), Seq::new(prog.len(), |i: int| 0nat))
}

/// A finished scan keeps the map's length and keeps every entry inside the
/// program, provided the state it started from did.
pub proof fn lemma_scan_in_range(prog: Seq<char>, i: nat, stack: Seq<nat>, map: Seq<nat>)
    requires
        i <= prog.len(),
        map.len() == prog.len(),
        forall|k: int| 0 <= k < stack.len() ==> stack[k] < i,
        forall|k: int| 0 <= k < map.len() ==> map[k] < prog.len(),
    ensures
        match bracket_scan(prog, i, stack, map) {
            Some(m) => m.len() == prog.len() && forall|k: int|
                0 <= k < m.len() ==> m[k] < prog.len(),
            None => true,
        },
    decreases prog.len() - i,
{
    if i >= prog.len() {
    } else if prog[i as int] == '[' {
        lemma_scan_in_range(prog, i + 1, stack.push(i), map);
    } else if prog[i as int] == ']' {
        if stack.len() > 0 {
            lemma_scan_in_range(
                prog,
                i + 1,
                stack.drop_last(),
                map.update(i as int, stack.last()).update(stack.last() as int, i),
            );
        }
    } else {
        lemma_scan_in_range(prog, i + 1, stack, map);
    }
}

/// The jump map of a well-bracketed program is as long as the program and
/// points only inside it.
pub proof fn lemma_jump_map_in_range(prog: Seq<char>)
    ensures
        match jump_map(prog) {
            Some(m) => m.len() == prog.len() && forall|k: int|
                0 <= k < m.len() ==> m[k] < prog.len(),
            None => true,
        },
{
    lemma_scan_in_range(prog, 0, Seq::empty(), Seq::new(prog.len(), |i: int| 0nat));
}

/// The pairing the scan is meant to leave behind at position `p`: a `[`
/// points at a `]` strictly after it, a `]` points at a `[` strictly before
/// it, each points back at the other, and any other character pairs with
/// nothing.
pub open spec fn paired_at(prog: Seq<char>, m: Seq<nat>, p: int) -> bool {
    &&& (prog[p] == '[' ==> p < m[p] < prog.len() && prog[m[p] as int] == ']' && m[m[p] as int]
        == p)
    &&& (prog[p] == ']' ==> m[p] < p && prog[m[p] as int] == '[' && m[m[p] as int] == p)
}

/// The scan's running state, strengthened for `lemma_scan_pairs`: the stack
/// holds, in increasing order, exactly the `[` positions seen so far that
/// are still open, and every other bracket already seen is paired off with
/// a partner that is itself seen, off the stack, and points back.
pub open spec fn scan_settled(prog: Seq<char>, i: nat, stack: Seq<nat>, map: Seq<nat>) -> bool {
    &&& map.len() == prog.len()
    &&& i <= prog.len()
    &&& (forall|k: int| 0 <= k < stack.len() ==> stack[k] < i && prog[#[trigger] stack[k] as int]
        == '[')
    &&& (forall|a: int, b: int| 0 <= a < b < stack.len() ==> stack[a] < stack[b])
    &&& (forall|p: int|
        0 <= p < i && (prog[p] == '[' || prog[p] == ']') && !stack.contains(p as nat)
            ==> #[trigger] paired_at(prog, map, p) && map[p] < i && !stack.contains(map[p]))
}

/// A finished scan pairs the brackets: when it yields a map from a settled
/// state, the map pairs every bracket position the scan still had to visit,
/// and keeps the pairings the state already held.
pub proof fn lemma_scan_pairs(prog: Seq<char>, i: nat, stack: Seq<nat>, map: Seq<nat>)
    requires
        scan_settled(prog, i, stack, map),
    ensures
        match bracket_scan(prog, i, stack, map) {
            Some(m) => forall|p: int|
                0 <= p < prog.len() && (prog[p] == '[' || prog[p] == ']') ==> #[trigger] paired_at(
                    prog,
                    m,
                    p,
                ),
            None => true,
        },
    decreases prog.len() - i,
{
    if i >= prog.len() {
        if stack.len() == 0 {
            assert forall|p: int|
                0 <= p < prog.len() && (prog[p] == '[' || prog[p] == ']') implies #[trigger] paired_at(
                prog,
                map,
                p,
            ) by {
                assert(!stack.contains(p as nat));
            }
        }
    } else if prog[i as int] == '[' {
        let s2 = stack.push(i);
        assert forall|p: int|
            0 <= p < i + 1 && (prog[p] == '[' || prog[p] == ']') && !s2.contains(p as nat) implies #[trigger] paired_at(
            prog,
            map,
            p,
        ) && map[p] < i + 1 && !s2.contains(map[p]) by {
            assert(s2[stack.len() as int] == i);
            assert(p < i);
            assert(!stack.contains(p as nat)) by {
                if stack.contains(p as nat) {
                    let k = choose|k: int| 0 <= k < stack.len() && stack[k] == p as nat;
                    assert(s2[k] == p as nat);
                }
            }
            assert(paired_at(prog, map, p) && map[p] < i && !stack.contains(map[p]));
            assert(!s2.contains(map[p])) by {
                if s2.contains(map[p]) {
                    let k = choose|k: int| 0 <= k < s2.len() && s2[k] == map[p];
                    if k < stack.len() {
                        assert(stack[k] == map[p]);
                    } else {
                        assert(s2[k] == i);
                    }
                }
            }
        }
        assert forall|k: int| 0 <= k < s2.len() implies s2[k] < i + 1 && prog[#[trigger] s2[k] as int]
            == '[' by {
            if k < stack.len() {
                assert(s2[k] == stack[k]);
            } else {
                assert(s2[k] == i);
            }
        }
        assert forall|a: int, b: int| 0 <= a < b < s2.len() implies s2[a] < s2[b] by {
            assert(s2[a] == stack[a]);
            if b < stack.len() {
                assert(s2[b] == stack[b]);
            } else {
                assert(s2[b] == i);
                assert(stack[a] < i);
            }
        }
        assert(scan_settled(prog, i + 1, s2, map));
        lemma_scan_pairs(prog, i + 1, s2, map);
    } else if prog[i as int] == ']' {
        if stack.len() > 0 {
            let l = stack.last();
            let s2 = stack.drop_last();
            let m2 = map.update(i as int, l).update(l as int, i);
            assert(l < i);
            assert forall|k: int| 0 <= k < s2.len() implies s2[k] < l by {
                assert(stack[k] < stack[stack.len() - 1]);
            }
            assert forall|p: int|
                0 <= p < i + 1 && (prog[p] == '[' || prog[p] == ']') && !s2.contains(p as nat) implies #[trigger] paired_at(
                prog,
                m2,
                p,
            ) && m2[p] < i + 1 && !s2.contains(m2[p]) by {
                if p == i {
                    assert(m2[p] == l);
                    assert(m2[l as int] == i);
                    assert(!s2.contains(l));
                } else if p == l {
                    assert(m2[p] == i);
                    assert(m2[i as int] == l);
                    assert(!s2.contains(i as nat));
                } else {
                    assert(!stack.contains(p as nat)) by {
                        if stack.contains(p as nat) {
                            let k = choose|k: int| 0 <= k < stack.len() && stack[k] == p as nat;
                            assert(k < stack.len() - 1);
                            assert(s2[k] == p as nat);
                        }
                    }
                    assert(paired_at(prog, map, p));
                    let q = map[p];
                    assert(q != l);
                    assert(m2[p] == map[p]);
                    assert(m2[q as int] == map[q as int]);
                    assert(!s2.contains(q)) by {
                        if s2.contains(q) {
                            let k = choose|k: int| 0 <= k < s2.len() && s2[k] == q;
                            assert(stack[k] == q);
                        }
                    }
                }
            }
            assert(scan_settled(prog, i + 1, s2, m2));
            lemma_scan_pairs(prog, i + 1, s2, m2);
        }
    } else {
        assert forall|p: int|
            0 <= p < i + 1 && (prog[p] == '[' || prog[p] == ']') && !stack.contains(p as nat) implies #[trigger] paired_at(
            prog,
            map,
            p,
        ) && map[p] < i + 1 && !stack.contains(map[p]) by {
            assert(p < i);
        }
        assert(scan_settled(prog, i + 1, stack, map));
        lemma_scan_pairs(prog, i + 1, stack, map);
    }
}

/// Law of the jump table: in the map of a well-bracketed program, every `[`
/// has exactly one matching `]` at a strictly greater position and vice
/// versa — each points at the other. A program whose brackets cannot be
/// paired this way has no map.
pub proof fn lemma_jump_map_pairs(prog: Seq<char>)
    ensures
        match jump_map(prog) {
            Some(m) => forall|p: int|
                0 <= p < prog.len() && (prog[p] == '[' || prog[p] == ']') ==> #[trigger] paired_at(
                    prog,
                    m,
                    p,
                ),
            None => true,
        },
{
    lemma_scan_pairs(prog, 0, Seq::empty(), Seq::new(prog.len(), |i: int| 0nat));
}

/// Collects the characters of `s` into a vector, so the program text can be
/// addressed by position.
pub(crate) fn to_chars(s: &str) -> (r: Vec<char>)
    ensures
        r@ == s@,
{
    let mut v: Vec<char> = Vec::new();
    for c in it: s.chars()
        invariant
            it.seq() == s@,
            v@ == it.seq().take(it.index() as int),
    {
        v.push(c);
    }
    proof {
        assert(v@ =~= s@);
    }
    v
}

/// Builds the jump map of `program` by the single stack-based scan that
/// `bracket_scan` describes: the map to jump by at every `[` and `]`, or
/// the mismatched-braces error when the brackets do not pair up. It runs
/// before any instruction executes, so malformed programs are rejected
/// without side effects.
pub fn build_pc_map(program: &str) -> (r: Result<Vec<usize>, BfError>)
    ensures
        match r {
            Ok(m) => jump_map(program@) == Some(m@.map_values(|x: usize| x as nat)),
            Err(e) => e == BfError::MismatchedBraces && jump_map(program@) is None,
        },
{
    let symbols = to_chars(program);
    let n = symbols.len();
    let mut stack: Vec<usize> = Vec::new();
    let mut map: Vec<usize> = Vec::new();
    while map.len() < n
        invariant
            n == symbols@.len(),
            map@.len() <= n,
            forall|k: int| 0 <= k < map@.len() ==> map@[k] == 0,
        decreases n - map.len(),
    {
        map.push(0);
    }
    proof {
        assert(stack@.map_values(|x: usize| x as nat) =~= Seq::<nat>::empty());
        assert(map@.map_values(|x: usize| x as nat) =~= Seq::new(program@.len(), |i: int| 0nat));
    }
    let mut index: usize = 0;
    while index < n
        invariant
            n == symbols@.len(),
            symbols@ == program@,
            index <= n,
            map@.len() == n,
            forall|k: int| 0 <= k < stack@.len() ==> stack@[k] < index,
            bracket_scan(
                program@,
                index as nat,
                stack@.map_values(|x: usize| x as nat),
                map@.map_values(|x: usize| x as nat),
            ) == jump_map(program@),
        decreases n - index,
    {
        let ghost pre_stack = stack@.map_values(|x: usize| x as nat);
        let ghost pre_map = map@.map_values(|x: usize| x as nat);
        let sym = symbols[index];
        if sym == '[' {
            stack.push(index);
            proof {
                assert(stack@.map_values(|x: usize| x as nat) =~= pre_stack.push(index as nat));
            }
        } else if sym == ']' {
            match stack.pop() {
                None => {
                    return Err(BfError::MismatchedBraces);
                },
                Some(left_pc) => {
                    map[index] = left_pc;
                    map[left_pc] = index;
                    proof {
                        assert(stack@.map_values(|x: usize| x as nat) =~= pre_stack.drop_last());
                        assert(map@.map_values(|x: usize| x as nat) =~= pre_map.update(
                            index as int,
                            pre_stack.last(),
                        ).update(pre_stack.last() as int, index as nat));
                    }
                },
            }
        }
        index = index + 1;
    }
    if !stack.is_empty() {
        return Err(BfError::MismatchedBraces);
    }
    Ok(map)
}

} // verus!
