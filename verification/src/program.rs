//! Translating source text into instructions.
//!
//! Source text is first filtered to the eight recognized symbols; the
//! offsets all later stages speak of are positions in that filtered
//! symbol stream, so whitespace and comment characters never affect
//! indices.  A single left-to-right scan with a stack of pending opens
//! ([`scan_stack`]) resolves each loop-open to its matching loop-close
//! and vice versa ([`scan_map`]); the instruction builder then maps each
//! symbol to one instruction, embedding the resolved jump targets, and
//! appends a terminal [`Instruction::Halt`].

use std::collections::HashMap;
use vstd::prelude::*;

verus! {

broadcast use vstd::std_specs::hash::group_hash_axioms;

/// One executable instruction.  The `usize` payload of a loop
/// instruction is the index of the matching bracket's instruction in the
/// built sequence (not a character offset in the raw source).
#[derive(Clone, Copy, Debug, PartialEq, Eq, Structural)]
pub enum Instruction {
    Increment,
    Decrement,
    MoveLeft,
    MoveRight,
    /// Payload: index of the matching loop-close instruction.
    StartLoop(usize),
    /// Payload: index of the matching loop-open instruction.
    EndLoop(usize),
    Output,
    Input,
    Halt,
}

/// The eight characters the language recognizes; every other character
/// is a comment and is dropped before offsets are assigned.
pub open spec fn is_symbol(c: char) -> bool {
    c == '+' || c == '-' || c == '<' || c == '>' || c == '[' || c == ']' || c == '.' || c == ','
}

/// The source text restricted to recognized symbols, in encounter order.
pub open spec fn filter_code(s: Seq<char>) -> Seq<char>
    decreases s.len(),
{
    if s.len() == 0 {
        Seq::empty()
    } else if is_symbol(s.last()) {
        filter_code(s.drop_last()).push(s.last())
    } else {
        filter_code(s.drop_last())
    }
}

fn symbol(c: char) -> (b: bool)
    ensures
        b == is_symbol(c),
{
    c == '+' || c == '-' || c == '<' || c == '>' || c == '[' || c == ']' || c == '.' || c == ','
}

/// Extending the text by one character extends its filtered form by that
/// character exactly when the character is a recognized symbol.
proof fn lemma_filter_code_step(s: Seq<char>, i: int)
    requires
        0 <= i < s.len(),
    ensures
        filter_code(s.take(i + 1)) == if is_symbol(s[i]) {
            filter_code(s.take(i)).push(s[i])
        } else {
            filter_code(s.take(i))
        },
{
    assert(s.take(i + 1).drop_last() =~= s.take(i));
    assert(s.take(i + 1).last() == s[i]);
}

/// The filtered symbol stream of `code`, as a vector of characters.
/// Both the loop resolver and the instruction builder filter through
/// this one function, so their offsets always agree.
pub fn filter_source(code: &str) -> (r: Vec<char>)
    ensures
        r@ == filter_code(code@),
{
    let n = code.unicode_len();
    let mut r: Vec<char> = Vec::new();
    let mut i: usize = 0;
    while i < n
        invariant
            i <= n,
            n == code@.len(),
            r@ == filter_code(code@.take(i as int)),
        decreases n - i,
    {
        let c = code.get_char(i);
        proof {
            lemma_filter_code_step(code@, i as int);
        }
        if symbol(c) {
            r.push(c);
        }
        i = i + 1;
    }
    proof {
        assert(code@.take(n as int) =~= code@);
    }
    r
}

/// A structural error found while resolving loops.  Offsets are
/// positions in the filtered symbol stream.
#[derive(Debug, PartialEq, Eq)]
pub enum BuildLoopMapError {
    /// Offsets of every loop-open left unmatched at end of input, in the
    /// order they were encountered.
    StrayOpens(Vec<usize>),
    /// Offset of the first loop-close with no matching open.
    StrayClose(usize),
}

/// The stack of pending (still unmatched) loop-open offsets after
/// scanning the first `n` symbols of the filtered stream `f`.
/// A loop-close seen while the stack is empty is a structural error;
/// the scan records nothing for it and moves on, so that the state is
/// defined for every text.
pub open spec fn scan_stack(f: Seq<char>, n: int) -> Seq<usize>
    decreases n,
{
    if n <= 0 {
        Seq::empty()
    } else {
        let prev = scan_stack(f, n - 1);
        if f[n - 1] == '[' {
            prev.push((n - 1) as usize)
        } else if f[n - 1] == ']' && prev.len() > 0 {
            prev.drop_last()
        } else {
            prev
        }
    }
}

/// The bidirectional loop mapping accumulated after scanning the first
/// `n` symbols of `f`: whenever a loop-close matches the most recent
/// pending open, both directions (open to close and close to open) are
/// inserted.
pub open spec fn scan_map(f: Seq<char>, n: int) -> Map<usize, usize>
    decreases n,
{
    if n <= 0 {
        Map::empty()
    } else {
        let m = scan_map(f, n - 1);
        let prev = scan_stack(f, n - 1);
        if f[n - 1] == ']' && prev.len() > 0 {
            m.insert(prev.last(), (n - 1) as usize).insert((n - 1) as usize, prev.last())
        } else {
            m
        }
    }
}

/// The symbol at offset `i` of `f` is a loop-close with no matching
/// open before it.
pub open spec fn stray_close_at(f: Seq<char>, i: int) -> bool {
    0 <= i < f.len() && f[i] == ']' && scan_stack(f, i).len() == 0
}

pub open spec fn has_stray_close(f: Seq<char>) -> bool {
    exists|i: int| stray_close_at(f, i)
}

/// The complete loop mapping of the filtered stream `f`.
pub open spec fn loop_map_spec(f: Seq<char>) -> Map<usize, usize> {
    scan_map(f, f.len() as int)
}

/// Loops of `f` are correctly nested: no loop-close lacks an open, and
/// no open is left pending at end of input.  Exactly the texts for which
/// resolution succeeds.
pub open spec fn well_nested(f: Seq<char>) -> bool {
    &&& !has_stray_close(f)
    &&& scan_stack(f, f.len() as int).len() == 0
}

/// What `build_loop_map` returns, case by case: the complete mapping on
/// a well-nested text, the offset of the first stray close if there is
/// one, and otherwise the pending-open offsets in encounter order.
pub open spec fn build_loop_map_result(f: Seq<char>, r: Result<
    Map<usize, usize>,
    BuildLoopMapError,
>) -> bool {
    match r {
        Ok(m) => well_nested(f) && m == loop_map_spec(f),
        Err(BuildLoopMapError::StrayClose(i)) => stray_close_at(f, i as int) && (forall|j: int|
            0 <= j < i ==> !stray_close_at(f, j)),
        Err(BuildLoopMapError::StrayOpens(v)) => {
            &&& !has_stray_close(f)
            &&& v@ == scan_stack(f, f.len() as int)
            &&& v@.len() > 0
        },
    }
}

/// Resolve every loop-open of `code` to its matching loop-close and
/// vice versa, or report exactly which brackets are unmatched.  Offsets
/// are positions in the filtered symbol stream.
pub fn build_loop_map(code: &str) -> (r: Result<HashMap<usize, usize>, BuildLoopMapError>)
    ensures
        filter_code(code@).len() <= usize::MAX,
        build_loop_map_result(
            filter_code(code@),
            match r {
                Ok(m) => Ok(m@),
                Err(e) => Err(e),
            },
        ),
{
    let f = filter_source(code);
    let ghost fs = f@;
    let mut loops: HashMap<usize, usize> = HashMap::new();
    let mut open_loops: Vec<usize> = Vec::new();
    let mut i: usize = 0;
    while i < f.len()
        invariant
            i <= fs.len(),
            f@ == fs,
            fs == filter_code(code@),
            open_loops@ == scan_stack(fs, i as int),
            loops@ == scan_map(fs, i as int),
            forall|j: int| 0 <= j < i ==> !stray_close_at(fs, j),
        decreases f.len() - i,
    {
        let c = f[i];
        if c == '[' {
            open_loops.push(i);
        } else if c == ']' {
            match open_loops.pop() {
                None => {
                    return Err(BuildLoopMapError::StrayClose(i));
                },
                Some(start) => {
                    loops.insert(start, i);
                    loops.insert(i, start);
                },
            }
        }
        i = i + 1;
    }
    if open_loops.len() > 0 {
        return Err(BuildLoopMapError::StrayOpens(open_loops));
    }
    proof {
        assert forall|j: int| !stray_close_at(fs, j) by {
            if 0 <= j < fs.len() {
                assert(!stray_close_at(fs, j));
            }
        }
    }
    Ok(loops)
}

/// The instruction a recognized symbol translates to, given the loop map
/// `m` and the symbol's offset `i` in the filtered stream.  A bracket
/// whose offset `m` does not map is given target `0`; the builder's
/// precondition rules that case out.
pub open spec fn instr_at(f: Seq<char>, m: Map<usize, usize>, i: int) -> Instruction {
    let target = if m.contains_key(i as usize) {
        m[i as usize]
    } else {
        0
    };
    if f[i] == '+' {
        Instruction::Increment
    } else if f[i] == '-' {
        Instruction::Decrement
    } else if f[i] == '<' {
        Instruction::MoveLeft
    } else if f[i] == '>' {
        Instruction::MoveRight
    } else if f[i] == '[' {
        Instruction::StartLoop(target)
    } else if f[i] == ']' {
        Instruction::EndLoop(target)
    } else if f[i] == '.' {
        Instruction::Output
    } else {
        Instruction::Input
    }
}

/// The full instruction sequence built from the filtered stream `f` and
/// loop map `m`: one instruction per symbol, then the halt sentinel.
pub open spec fn instrs_spec(f: Seq<char>, m: Map<usize, usize>) -> Seq<Instruction> {
    Seq::new(f.len(), |i: int| instr_at(f, m, i)).push(Instruction::Halt)
}

/// Translate `code` into its instruction sequence, embedding the jump
/// target of each bracket from `loops`, and append the halt sentinel.
/// `loops` must map every bracket offset of the filtered stream of
/// `code` (as a completed loop map of the same source does).
pub fn build_instructions(code: &str, loops: &HashMap<usize, usize>) -> (r: Vec<Instruction>)
    requires
        brackets_mapped(filter_code(code@), loops@),
    ensures
        r@ == instrs_spec(filter_code(code@), loops@),
{
    let f = filter_source(code);
    let ghost fs = f@;
    let mut instructions: Vec<Instruction> = Vec::new();
    let mut i: usize = 0;
    while i < f.len()
        invariant
            i <= fs.len(),
            f@ == fs,
            fs == filter_code(code@),
            brackets_mapped(fs, loops@),
            instructions@.len() == i,
            forall|j: int| 0 <= j < i ==> instructions@[j] == instr_at(fs, loops@, j),
        decreases f.len() - i,
    {
        let c = f[i];
        let instruction = if c == '+' {
            Instruction::Increment
        } else if c == '-' {
            Instruction::Decrement
        } else if c == '<' {
            Instruction::MoveLeft
        } else if c == '>' {
            Instruction::MoveRight
        } else if c == '[' {
            Instruction::StartLoop(*loops.get(&i).unwrap())
        } else if c == ']' {
            Instruction::EndLoop(*loops.get(&i).unwrap())
        } else if c == '.' {
            Instruction::Output
        } else {
            Instruction::Input
        };
        instructions.push(instruction);
        i = i + 1;
    }
    instructions.push(Instruction::Halt);
    proof {
        assert(instructions@ =~= instrs_spec(fs, loops@));
    }
    instructions
}

/// Everything a single scan guarantees about its stack and mapping after
/// `n` symbols: stack entries are strictly increasing offsets of opens
/// not yet mapped; the mapping is a symmetric, irreflexive pairing of an
/// earlier open with a later close; and every bracket seen so far is
/// pending, mapped, or a stray close.
pub open spec fn scan_ok(f: Seq<char>, n: int) -> bool {
    let st = scan_stack(f, n);
    let m = scan_map(f, n);
    &&& forall|k: int|
        0 <= k < st.len() ==> (#[trigger] st[k]) < n && f[st[k] as int] == '['
            && !m.contains_key(st[k])
    &&& forall|a: int, b: int| 0 <= a < b < st.len() ==> st[a] < st[b]
    &&& forall|k: usize|
        #[trigger] m.contains_key(k) ==> m.contains_key(m[k]) && m[m[k]] == k && (k as int) < n && (
        m[k] as int) < n
    &&& forall|k: usize|
        #[trigger] m.contains_key(k) ==> ((f[k as int] == '[' && k < m[k] && f[m[k] as int] == ']')
            || (f[k as int] == ']' && m[k] < k && f[m[k] as int] == '['))
    &&& forall|j: int|
        0 <= j < n && (f[j] == '[' || f[j] == ']') ==> scan_stack(f, n).contains(j as usize)
            || m.contains_key(j as usize) || stray_close_at(f, j)
}

pub proof fn lemma_scan_properties(f: Seq<char>, n: int)
    requires
        n <= f.len() <= usize::MAX,
    ensures
        scan_ok(f, n),
    decreases n,
{
    if n <= 0 {
    } else {
        lemma_scan_properties(f, n - 1);
        let st0 = scan_stack(f, n - 1);
        let m0 = scan_map(f, n - 1);
        let st = scan_stack(f, n);
        let m = scan_map(f, n);
        if f[n - 1] == '[' {
            assert(st == st0.push((n - 1) as usize));
            assert(m == m0);
            assert forall|j: int|
                0 <= j < n && (f[j] == '[' || f[j] == ']') implies st.contains(j as usize)
                || m.contains_key(j as usize) || stray_close_at(f, j) by {
                if j == n - 1 {
                    assert(st[st.len() - 1] == (n - 1) as usize);
                    assert(st.contains(j as usize));
                } else if st0.contains(j as usize) {
                    let k = choose|k: int| 0 <= k < st0.len() && st0[k] == j as usize;
                    assert(st[k] == j as usize);
                    assert(st.contains(j as usize));
                }
            }
        } else if f[n - 1] == ']' && st0.len() > 0 {
            let o = st0.last();
            let c = (n - 1) as usize;
            assert(st == st0.drop_last());
            assert(m == m0.insert(o, c).insert(c, o));
            assert(c as int == n - 1);
            assert(o == st0[st0.len() - 1]);
            assert((o as int) < n - 1 && f[o as int] == '[' && !m0.contains_key(o));
            assert forall|k: usize| #[trigger] m0.contains_key(k) implies k != o && k != c && m0[k]
                != o && m0[k] != c by {
                assert(m0.contains_key(m0[k]));
                assert((k as int) < n - 1 && (m0[k] as int) < n - 1);
            }
            assert forall|k: int| 0 <= k < st.len() implies (#[trigger] st[k]) < n && f[st[k] as int]
                == '[' && !m.contains_key(st[k]) by {
                assert(st[k] == st0[k]);
                assert(st0[k] < st0[st0.len() - 1]);
                assert(st0[k] != o && (st0[k] as int) < n - 1);
                assert(!m0.contains_key(st0[k]));
            }
            assert forall|j: int|
                0 <= j < n && (f[j] == '[' || f[j] == ']') implies st.contains(j as usize)
                || m.contains_key(j as usize) || stray_close_at(f, j) by {
                if j == n - 1 {
                } else if st0.contains(j as usize) {
                    let k = choose|k: int| 0 <= k < st0.len() && st0[k] == j as usize;
                    if k == st0.len() - 1 {
                        assert(j as usize == o);
                        assert(m.contains_key(j as usize));
                    } else {
                        assert(st[k] == j as usize);
                        assert(st.contains(j as usize));
                    }
                }
            }
        } else {
            assert(st == st0);
            assert(m == m0);
            assert forall|j: int|
                0 <= j < n && (f[j] == '[' || f[j] == ']') implies st.contains(j as usize)
                || m.contains_key(j as usize) || stray_close_at(f, j) by {
                if j == n - 1 {
                    assert(f[j] == ']' && st0.len() == 0);
                    assert(stray_close_at(f, j));
                }
            }
        }
    }
}

/// Every bracket offset of `f` is a key of `m`; exactly what the
/// instruction builder needs of a loop map.
pub open spec fn brackets_mapped(f: Seq<char>, m: Map<usize, usize>) -> bool {
    forall|i: int| 0 <= i < f.len() && (f[i] == '[' || f[i] == ']') ==> m.contains_key(i as usize)
}

/// On a well-nested text the resolved loop map covers every bracket.
pub proof fn lemma_well_nested_brackets_mapped(f: Seq<char>)
    requires
        well_nested(f),
        f.len() <= usize::MAX,
    ensures
        brackets_mapped(f, loop_map_spec(f)),
{
    lemma_scan_properties(f, f.len() as int);
}

/// The loop map pairs offsets within the text and is a perfect
/// involution: resolving a matched pair twice returns the original
/// offset, and each pair joins an earlier open to a later close.
pub proof fn lemma_loop_map_involution(f: Seq<char>)
    requires
        f.len() <= usize::MAX,
    ensures
        forall|k: usize| #[trigger]
            loop_map_spec(f).contains_key(k) ==> loop_map_spec(f).contains_key(loop_map_spec(f)[k])
                && loop_map_spec(f)[loop_map_spec(f)[k]] == k,
        forall|k: usize| #[trigger]
            loop_map_spec(f).contains_key(k) ==> (k as int) < f.len() && (loop_map_spec(f)[k] as int)
                < f.len(),
        forall|k: usize| #[trigger]
            loop_map_spec(f).contains_key(k) ==> ((f[k as int] == '[' && k < loop_map_spec(f)[k])
                || (f[k as int] == ']' && loop_map_spec(f)[k] < k)),
{
    lemma_scan_properties(f, f.len() as int);
}

/// Loops are never partially resolved: in the sequence built from a
/// well-nested text with its own loop map, a loop-open at index `i`
/// targeting `j` stands opposite a loop-close at index `j` targeting
/// `i`, and the other way round.
pub proof fn lemma_loop_targets_symmetric(f: Seq<char>)
    requires
        well_nested(f),
        f.len() <= usize::MAX,
    ensures
        forall|i: int|
            0 <= i < f.len() && (#[trigger] instrs_spec(f, loop_map_spec(f))[i]) is StartLoop
                ==> {
                let j = instrs_spec(f, loop_map_spec(f))[i]->StartLoop_0;
                (j as int) < f.len() && instrs_spec(f, loop_map_spec(f))[j as int]
                    == Instruction::EndLoop(i as usize)
            },
        forall|i: int|
            0 <= i < f.len() && (#[trigger] instrs_spec(f, loop_map_spec(f))[i]) is EndLoop
                ==> {
                let j = instrs_spec(f, loop_map_spec(f))[i]->EndLoop_0;
                (j as int) < f.len() && instrs_spec(f, loop_map_spec(f))[j as int]
                    == Instruction::StartLoop(i as usize)
            },
{
    lemma_scan_properties(f, f.len() as int);
    let m = loop_map_spec(f);
    let ins = instrs_spec(f, m);
    assert forall|i: int|
        0 <= i < f.len() && (#[trigger] ins[i]) is StartLoop implies {
        let j = ins[i]->StartLoop_0;
        (j as int) < f.len() && ins[j as int] == Instruction::EndLoop(i as usize)
    } by {
        assert(ins[i] == instr_at(f, m, i));
        let j = ins[i]->StartLoop_0;
        assert(f[i] == '[' && m.contains_key(i as usize) && m[i as usize] == j);
        assert(m.contains_key(j) && m[j] == i as usize && f[j as int] == ']');
        assert(ins[j as int] == instr_at(f, m, j as int));
    }
    assert forall|i: int|
        0 <= i < f.len() && (#[trigger] ins[i]) is EndLoop implies {
        let j = ins[i]->EndLoop_0;
        (j as int) < f.len() && ins[j as int] == Instruction::StartLoop(i as usize)
    } by {
        assert(ins[i] == instr_at(f, m, i));
        let j = ins[i]->EndLoop_0;
        assert(f[i] == ']' && m.contains_key(i as usize) && m[i as usize] == j);
        assert(m.contains_key(j) && m[j] == i as usize && f[j as int] == '[');
        assert(ins[j as int] == instr_at(f, m, j as int));
    }
}

} // verus!
