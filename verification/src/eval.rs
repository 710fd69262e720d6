//! Lexing and validation of source text into an instruction sequence.

use vstd::prelude::*;
use std::collections::HashMap;
use crate::rle::expand;
use crate::rle::rle_wf;
use crate::rle::RLEInstructionSet;
use crate::rle::RLE;
use crate::rle::RLE_MAX;
use crate::utils::to_char_vec;

verus! {

broadcast use vstd::std_specs::hash::group_hash_axioms;

/// The eight instructions of the language.
#[derive(Clone, Copy, PartialEq, Eq, Structural, Debug)]
pub enum Instruction {
    Right,
    Left,
    Increment,
    Decrement,
    LoopOpen,
    LoopClose,
    Output,
    Input,
}

/// The greatest number of simultaneously open loops that validation admits.
pub const MAX_LOOP_DEPTH: u16 = 65535;

/// The instruction, if any, that a source character stands for.
/// Every other character is a comment and is discarded.
pub open spec fn instr_of_char(c: char) -> Option<Instruction> {
    match c {
        '>' => Some(Instruction::Right),
        '<' => Some(Instruction::Left),
        '+' => Some(Instruction::Increment),
        '-' => Some(Instruction::Decrement),
        '[' => Some(Instruction::LoopOpen),
        ']' => Some(Instruction::LoopClose),
        '.' => Some(Instruction::Output),
        ',' => Some(Instruction::Input),
        _ => None,
    }
}

/// The instructions that the first `i` characters of `s` stand for,
/// with comment characters discarded.
pub open spec fn lex_prefix(s: Seq<char>, i: int) -> Seq<Instruction>
    decreases i,
{
    if i <= 0 {
        Seq::empty()
    } else {
        lex_prefix(s, i - 1) + match instr_of_char(s[i - 1]) {
            Some(inst) => seq![inst],
            None => Seq::empty(),
        }
    }
}

/// The whole of `s`, lexed.
pub open spec fn lex_filter(s: Seq<char>) -> Seq<Instruction> {
    lex_prefix(s, s.len() as int)
}

/// How a source character changes the loop-nesting depth.
pub open spec fn bracket_delta(c: char) -> int {
    if c == '[' {
        1
    } else if c == ']' {
        -1
    } else {
        0
    }
}

/// The loop-nesting depth after the first `i` characters of `s`.
pub open spec fn char_depth(s: Seq<char>, i: int) -> int
    decreases i,
{
    if i <= 0 {
        0
    } else {
        char_depth(s, i - 1) + bracket_delta(s[i - 1])
    }
}

/// Whether the character at `j` passes validation, given all before it did:
/// an opening must not push the depth past the limit, and a closing must
/// have something to close.
pub open spec fn lex_ok_at(s: Seq<char>, j: int) -> bool {
    &&& (s[j] == '[' ==> char_depth(s, j) < MAX_LOOP_DEPTH as int)
    &&& (s[j] == ']' ==> char_depth(s, j) > 0)
}

/// Whether every character before `i` passes validation.
pub open spec fn lex_ok_upto(s: Seq<char>, i: int) -> bool {
    forall|j: int| 0 <= j < i ==> lex_ok_at(s, j)
}

/// How an instruction changes the loop-nesting depth.
pub open spec fn instr_delta(inst: Instruction) -> int {
    match inst {
        Instruction::LoopOpen => 1,
        Instruction::LoopClose => -1,
        _ => 0,
    }
}

/// The loop-nesting depth after the first `i` instructions of `s`.
pub open spec fn depth(s: Seq<Instruction>, i: int) -> int
    decreases i,
{
    if i <= 0 {
        0
    } else {
        depth(s, i - 1) + instr_delta(s[i - 1])
    }
}

/// A validated sequence: the depth never drops below zero or exceeds the
/// limit, and every opened loop is closed by the end.
pub open spec fn balanced(s: Seq<Instruction>) -> bool {
    &&& forall|i: int| 0 <= i <= s.len() ==> 0 <= #[trigger] depth(s, i) <= MAX_LOOP_DEPTH as int
    &&& depth(s, s.len() as int) == 0
}

/// Validation error, carrying the absolute character offset of the
/// offending character, or the number of loops left open.
#[derive(Clone, Copy, PartialEq, Eq, Structural, Debug)]
pub enum EvalError {
    LoopOverload(usize),
    UnnecesseryBracket(usize),
    UnclosedBracket(u16),
}

/// A container of validated instructions; see [`balanced`].
#[derive(PartialEq, Eq, Debug)]
pub struct InstructionSet {
    instructions: Vec<Instruction>,
}

impl View for InstructionSet {
    type V = Seq<Instruction>;

    closed spec fn view(&self) -> Seq<Instruction> {
        self.instructions@
    }
}

impl InstructionSet {
    /// Every value of this type is balanced: openings and closings pair
    /// up and the nesting depth stays within the limit. Established by
    /// [`eval_instr`] and preserved by every mutation.
    #[verifier::type_invariant]
    pub open spec fn well_formed(self) -> bool {
        balanced(self@)
    }

    /// The number of instructions.
    pub fn len(&self) -> (r: usize)
        ensures
            r == self@.len(),
    {
        self.instructions.len()
    }

    /// Whether there are no instructions.
    pub fn is_empty(&self) -> (r: bool)
        ensures
            r == (self@.len() == 0),
    {
        self.instructions.len() == 0
    }

    /// The instruction at a given index.
    pub fn get(&self, i: usize) -> (r: Instruction)
        requires
            i < self@.len(),
        ensures
            r == self@[i as int],
    {
        self.instructions[i]
    }

    /// A borrow of the underlying instruction list.
    pub fn as_vec(&self) -> (r: &Vec<Instruction>)
        ensures
            r@ == self@,
    {
        &self.instructions
    }

    /// Prunes the optional comment loop that may open the sequence: when
    /// the first instruction opens a loop, that loop can never run, so it
    /// and everything it encloses are removed.
    pub fn prune_comment_loop(&mut self) -> (r: bool)
        ensures
            r == prunable(old(self)@),
            r ==> final(self)@ == prune_step(old(self)@),
            !r ==> final(self)@ == old(self)@,
    {
        proof {
            use_type_invariant(&*self);
        }
        let ghost s = self@;
        let n = self.instructions.len();
        if n == 0 {
            return false;
        }
        if self.instructions[0] != Instruction::LoopOpen {
            return false;
        }

        proof {
            assert(depth(s, 0) == 0);
            assert(depth(s, 1) == 1);
        }
        let mut loop_count: u16 = 0;
        let mut i: usize = 1;
        while i < n
            invariant
                old(self)@ == s,
                self@ == s,
                balanced(s),
                n == s.len(),
                1 <= i <= n,
                s[0] == Instruction::LoopOpen,
                loop_count as int + 1 == depth(s, i as int),
                forall|k: int|
                    0 < k < i && s[k] == Instruction::LoopClose ==> #[trigger] depth(s, k) != 1,
            decreases n - i,
        {
            let value = self.instructions[i];
            if value == Instruction::LoopClose && loop_count == 0 {
                proof {
                    assert(is_match(s, 0, i as int));
                    assert(has_match(s, 0));
                }
                let mut rest: Vec<Instruction> = Vec::new();
                let mut k: usize = i + 1;
                while k < n
                    invariant
                        self@ == s,
                        n == s.len(),
                        i + 1 <= k <= n,
                        rest@ == s.subrange(i + 1, k as int),
                    decreases n - k,
                {
                    rest.push(self.instructions[k]);
                    proof {
                        assert(rest@ =~= s.subrange(i + 1, k + 1));
                    }
                    k = k + 1;
                }
                proof {
                    assert(rest@ == s.subrange(i + 1, n as int));
                    assert(depth(s, i + 1) == 0);
                    assert forall|t: int| 0 <= t <= rest@.len() implies 0 <= #[trigger] depth(
                        rest@,
                        t,
                    ) <= MAX_LOOP_DEPTH as int && depth(rest@, t) == depth(s, i + 1 + t) by {
                        lemma_depth_subrange(s, i + 1, t);
                    }
                    assert(depth(rest@, rest@.len() as int) == 0);
                    let j = match_of(s, 0);
                    assert(is_match(s, 0, j));
                    lemma_match_unique(s, 0, i as int, j);
                }
                self.instructions = rest;
                return true;
            } else if value == Instruction::LoopOpen {
                loop_count = loop_count + 1;
            } else if value == Instruction::LoopClose {
                loop_count = loop_count - 1;
            }
            i = i + 1;
        }
        proof {
            assert(depth(s, n as int) == 0);
            assert(false);
        }
        false
    }

    /// Compresses the instructions into runs: counts stay within the cap,
    /// expanding the runs restores the sequence exactly, and adjacent runs
    /// share an instruction only where the cap forced a split.
    pub fn encode_run_length(&self) -> (r: RLEInstructionSet)
        ensures
            expand(r@) == self@,
            rle_wf(r@),
    {
        let ghost s = self@;
        let n = self.instructions.len();
        let mut runs: Vec<RLE<Instruction>> = Vec::new();
        let mut i: usize = 0;

        while i < n
            invariant
                self@ == s,
                n == s.len(),
                0 <= i <= n,
                expand(runs@) == s.take(i as int),
                rle_wf(runs@),
                runs@.len() > 0 && i < n ==> (runs@.last().value() != s[i as int]
                    || runs@.last().count() == RLE_MAX),
            decreases n - i,
        {
            let cur = self.instructions[i];
            let ghost i0 = i as int;
            let mut count: u16 = 1;
            i = i + 1;
            while i < n && self.instructions[i] == cur && count < RLE_MAX
                invariant
                    self@ == s,
                    n == s.len(),
                    i0 + 1 <= i <= n,
                    count as int == i - i0,
                    1 <= count <= RLE_MAX,
                    forall|k: int| i0 <= k < i ==> s[k] == cur,
                    expand(runs@) == s.take(i0),
                    rle_wf(runs@),
                    runs@.len() > 0 ==> (runs@.last().value() != s[i0] || runs@.last().count()
                        == RLE_MAX),
                    s[i0] == cur,
                    0 <= i0 < n,
                decreases n - i,
            {
                count = count + 1;
                i = i + 1;
            }
            let pair = RLE::new(count, cur);
            proof {
                lemma_expand_push(runs@, pair);
                assert(Seq::new(pair.count() as nat, |x: int| pair.value()) =~= s.subrange(
                    i0,
                    i as int,
                ));
                assert(s.take(i0) + s.subrange(i0, i as int) =~= s.take(i as int));
            }
            runs.push(pair);
        }
        proof {
            assert(s.take(n as int) =~= s);
        }
        RLEInstructionSet::from_runs(runs)
    }

    /// Builds the jump table pairing every loop opening with its closing:
    /// openings are stacked and popped as their closings arrive, and both
    /// directions of each pair are recorded.
    pub fn build_jump_table(&self) -> (r: JumpTable)
        ensures
            jump_table_correct(self@, r@),
    {
        proof {
            use_type_invariant(self);
        }
        let ghost s = self@;
        let mut output: HashMap<usize, usize> = HashMap::new();
        let n = self.instructions.len();
        let mut loop_stack: Vec<usize> = Vec::new();
        let mut i: usize = 0;

        while i < n
            invariant
                self@ == s,
                balanced(s),
                n == s.len(),
                0 <= i <= n,
                loop_stack@.len() == depth(s, i as int),
                forall|t: int|
                    0 <= t < loop_stack@.len() ==> stack_entry_ok(
                        s,
                        i as int,
                        t,
                        #[trigger] loop_stack@[t],
                    ),
                forall|k: usize| #[trigger]
                    output@.dom().contains(k) ==> k < i && is_loop_instr(s[k as int])
                        && !loop_stack@.contains(k),
                forall|k: int|
                    0 <= k < i && is_loop_instr(#[trigger] s[k]) && !loop_stack@.contains(
                        k as usize,
                    ) ==> output@.dom().contains(k as usize),
                forall|k: usize| #[trigger]
                    output@.dom().contains(k) && s[k as int] == Instruction::LoopOpen ==> is_match(
                        s,
                        k as int,
                        output@[k] as int,
                    ),
                forall|k: usize| #[trigger]
                    output@.dom().contains(k) && s[k as int] == Instruction::LoopClose
                        ==> is_match(s, output@[k] as int, k as int),
                forall|k: usize| #[trigger]
                    output@.dom().contains(k) ==> output@.dom().contains(output@[k])
                        && output@[output@[k]] == k,
            decreases n - i,
        {
            let inst = self.instructions[i];
            if inst == Instruction::LoopOpen {
                let ghost old_stack = loop_stack@;
                loop_stack.push(i);
                proof {
                    assert forall|k: int|
                        0 <= k < i + 1 && is_loop_instr(#[trigger] s[k]) && !loop_stack@.contains(
                            k as usize,
                        ) implies output@.dom().contains(k as usize) by {
                        if k < i {
                            assert(!old_stack.contains(k as usize)) by {
                                if old_stack.contains(k as usize) {
                                    let t = choose|t: int|
                                        0 <= t < old_stack.len() && old_stack[t] == k as usize;
                                    assert(loop_stack@[t] == k as usize);
                                }
                            }
                        } else {
                            assert(loop_stack@[loop_stack@.len() - 1] == i);
                        }
                    }
                }
            } else if inst == Instruction::LoopClose {
                proof {
                    assert(depth(s, i + 1) >= 0);
                    assert(loop_stack@.len() >= 1);
                    assert forall|t1: int, t2: int|
                        0 <= t1 < t2 < loop_stack@.len() implies loop_stack@[t1]
                        != loop_stack@[t2] by {
                        assert(stack_entry_ok(s, i as int, t1, loop_stack@[t1]));
                        assert(stack_entry_ok(s, i as int, t2, loop_stack@[t2]));
                    }
                }
                let ghost old_stack = loop_stack@;
                let start = loop_stack.pop().unwrap();
                let end = i;
                proof {
                    let ghost d = depth(s, i as int);
                    assert(loop_stack@ == old_stack.drop_last());
                    assert(stack_entry_ok(s, i as int, d - 1, start));
                    assert(is_match(s, start as int, end as int));
                    assert(!loop_stack@.contains(start)) by {
                        if loop_stack@.contains(start) {
                            let t = choose|t: int|
                                0 <= t < loop_stack@.len() && loop_stack@[t] == start;
                            assert(stack_entry_ok(s, i as int, t, start));
                        }
                    }
                }
                output.insert(start, end);
                output.insert(end, start);
                proof {
                    assert forall|k: int|
                        0 <= k < i + 1 && is_loop_instr(#[trigger] s[k]) && !loop_stack@.contains(
                            k as usize,
                        ) implies output@.dom().contains(k as usize) by {
                        if k < i && k as usize != start {
                            assert(!old_stack.contains(k as usize)) by {
                                if old_stack.contains(k as usize) {
                                    let t = choose|t: int|
                                        0 <= t < old_stack.len() && old_stack[t] == k as usize;
                                    assert(t < old_stack.len() - 1);
                                    assert(loop_stack@[t] == k as usize);
                                }
                            }
                        }
                    }
                }
            }
            i = i + 1;
        }

        JumpTable { table: output }
    }

    /// Prunes comment loops from the front for as long as one is there,
    /// returning how many were removed.
    pub fn prune_all_loops(&mut self) -> (r: usize)
        ensures
            final(self)@ == pruned_all(old(self)@),
            r as nat == prune_count(old(self)@),
    {
        let ghost orig = self@;
        let orig_len = self.len();
        let mut count: usize = 0;
        loop
            invariant
                orig_len == orig.len(),
                pruned_all(orig) == pruned_all(self@),
                prune_count(orig) == count + prune_count(self@),
                count + self@.len() <= orig_len,
            ensures
                pruned_all(orig) == pruned_all(self@),
                prune_count(orig) == count + prune_count(self@),
                !prunable(self@),
            decreases self@.len(),
        {
            let ghost prev = self@;
            let pruned = self.prune_comment_loop();
            if !pruned {
                break;
            }
            proof {
                let j = match_of(prev, 0);
                assert(is_match(prev, 0, j));
                assert(self@.len() + 2 <= prev.len());
                assert(pruned_all(prev) == pruned_all(self@));
                assert(prune_count(prev) == 1 + prune_count(self@));
            }
            count = count + 1;
        }
        proof {
            assert(pruned_all(self@) == self@);
            assert(prune_count(self@) == 0);
        }
        count
    }
}

/// Lexing reads only the characters before `i`.
proof fn lemma_lex_prefix_agree(s1: Seq<char>, s2: Seq<char>, i: int)
    requires
        i <= s1.len(),
        i <= s2.len(),
        forall|j: int| 0 <= j < i ==> s1[j] == s2[j],
    ensures
        lex_prefix(s1, i) == lex_prefix(s2, i),
    decreases i,
{
    if i > 0 {
        lemma_lex_prefix_agree(s1, s2, i - 1);
    }
}

/// For text made only of recognized characters, every character becomes
/// an instruction, so the lexed sequence is exactly as long as the text.
/// Validation of such text succeeds whenever its brackets are balanced
/// and never push the nesting depth past the limit.
pub proof fn lemma_recognized_lex_len(s: Seq<char>)
    requires
        forall|i: int| 0 <= i < s.len() ==> instr_of_char(#[trigger] s[i]) is Some,
    ensures
        lex_filter(s).len() == s.len(),
{
    lemma_lex_prefix_recognized_len(s, s.len() as int);
}

proof fn lemma_lex_prefix_recognized_len(s: Seq<char>, i: int)
    requires
        i <= s.len(),
        forall|j: int| 0 <= j < i ==> instr_of_char(#[trigger] s[j]) is Some,
    ensures
        lex_prefix(s, i).len() == if i >= 0 { i } else { 0 },
    decreases i,
{
    if i > 0 {
        lemma_lex_prefix_recognized_len(s, i - 1);
    }
}

/// Characters outside the recognized set are invisible to the lexed
/// instruction sequence: removing them first changes nothing. They still
/// count toward reported error positions, which index the original text.
pub proof fn lemma_comments_invisible(s: Seq<char>)
    ensures
        lex_filter(s) == lex_filter(s.filter(|c: char| instr_of_char(c) is Some)),
    decreases s.len(),
{
    reveal(Seq::filter);
    let p = |c: char| instr_of_char(c) is Some;
    if s.len() == 0 {
        assert(lex_filter(s.filter(p)) == lex_filter(s));
    } else {
        let rest = s.drop_last();
        let c = s.last();
        lemma_comments_invisible(rest);
        lemma_lex_prefix_agree(s, rest, s.len() - 1);
        if p(c) {
            assert(s.filter(p) == rest.filter(p).push(c));
            lemma_lex_prefix_agree(rest.filter(p).push(c), rest.filter(p), rest.filter(p).len() as int);
            assert(lex_filter(rest.filter(p).push(c)) == lex_filter(rest.filter(p)) + seq![
                instr_of_char(c)->0,
            ]);
            assert(lex_filter(s) == lex_filter(rest) + seq![instr_of_char(c)->0]);
        } else {
            assert(s.filter(p) == rest.filter(p));
            assert(lex_filter(s) == lex_filter(rest));
        }
    }
}

/// Whether the closing at `j` matches the opening at `i`: it is the first
/// closing after `i` that returns the nesting depth to its level at `i`.
pub open spec fn is_match(s: Seq<Instruction>, i: int, j: int) -> bool {
    &&& 0 <= i < j < s.len()
    &&& s[i] == Instruction::LoopOpen
    &&& s[j] == Instruction::LoopClose
    &&& depth(s, j) == depth(s, i) + 1
    &&& forall|k: int|
        i < k < j && s[k] == Instruction::LoopClose ==> #[trigger] depth(s, k) != depth(s, i) + 1
}

/// Whether the opening at `i` has a matching closing.
pub open spec fn has_match(s: Seq<Instruction>, i: int) -> bool {
    exists|j: int| is_match(s, i, j)
}

/// The index of the closing that matches the opening at `i`.
pub open spec fn match_of(s: Seq<Instruction>, i: int) -> int {
    choose|j: int| is_match(s, i, j)
}

/// An opening has at most one matching closing.
pub proof fn lemma_match_unique(s: Seq<Instruction>, i: int, j1: int, j2: int)
    requires
        is_match(s, i, j1),
        is_match(s, i, j2),
    ensures
        j1 == j2,
{
    if j1 < j2 {
        assert(depth(s, j1) == depth(s, i) + 1);
        assert(false);
    } else if j2 < j1 {
        assert(depth(s, j2) == depth(s, i) + 1);
        assert(false);
    }
}

/// The index of the opening that the closing at `j` matches.
pub open spec fn open_match_of(s: Seq<Instruction>, j: int) -> int {
    choose|i: int| is_match(s, i, j)
}

/// Between a point at depth above `x` and a later point at depth `x` or
/// below, some closing steps the depth down onto `x`.
proof fn lemma_depth_crossing(s: Seq<Instruction>, a: int, b: int, x: int)
    requires
        0 <= a <= b <= s.len(),
        depth(s, a) >= x + 1,
        depth(s, b) <= x,
    ensures
        exists|k: int|
            a <= k < b && s[k] == Instruction::LoopClose && #[trigger] depth(s, k) == x + 1
                && depth(s, k + 1) == x,
    decreases b - a,
{
    if depth(s, a + 1) <= x {
        assert(depth(s, a + 1) == depth(s, a) + instr_delta(s[a]));
        assert(s[a] == Instruction::LoopClose && depth(s, a) == x + 1 && depth(s, a + 1) == x);
    } else {
        lemma_depth_crossing(s, a + 1, b, x);
    }
}

/// A closing has at most one matching opening.
pub proof fn lemma_close_match_unique(s: Seq<Instruction>, i1: int, i2: int, j: int)
    requires
        is_match(s, i1, j),
        is_match(s, i2, j),
    ensures
        i1 == i2,
{
    if i1 < i2 {
        lemma_depth_crossing(s, i1 + 1, i2, depth(s, i1));
        assert(false);
    } else if i2 < i1 {
        lemma_depth_crossing(s, i2 + 1, i1, depth(s, i2));
        assert(false);
    }
}

/// A correct jump table records exactly the bracket matching: openings
/// map to [`match_of`] and closings to [`open_match_of`].
pub proof fn lemma_jump_table_is_matching(s: Seq<Instruction>, m: Map<usize, usize>, k: usize)
    requires
        jump_table_correct(s, m),
        m.dom().contains(k),
    ensures
        s[k as int] == Instruction::LoopOpen ==> m[k] == match_of(s, k as int),
        s[k as int] == Instruction::LoopClose ==> m[k] == open_match_of(s, k as int),
{
    if s[k as int] == Instruction::LoopOpen {
        assert(is_match(s, k as int, m[k] as int));
        assert(is_match(s, k as int, match_of(s, k as int)));
        lemma_match_unique(s, k as int, m[k] as int, match_of(s, k as int));
    }
    if s[k as int] == Instruction::LoopClose {
        assert(is_match(s, m[k] as int, k as int));
        assert(is_match(s, open_match_of(s, k as int), k as int));
        lemma_close_match_unique(s, m[k] as int, open_match_of(s, k as int), k as int);
    }
}

/// Whether the sequence starts with a comment loop that can be pruned.
pub open spec fn prunable(s: Seq<Instruction>) -> bool {
    s.len() > 0 && s[0] == Instruction::LoopOpen && has_match(s, 0)
}

/// The sequence with its leading comment loop removed.
pub open spec fn prune_step(s: Seq<Instruction>) -> Seq<Instruction> {
    s.subrange(match_of(s, 0) + 1, s.len() as int)
}

/// The sequence with every leading comment loop removed.
pub open spec fn pruned_all(s: Seq<Instruction>) -> Seq<Instruction>
    decreases s.len(),
{
    if prunable(s) {
        pruned_all(prune_step(s))
    } else {
        s
    }
}

/// How many leading comment loops pruning removes.
pub open spec fn prune_count(s: Seq<Instruction>) -> nat
    decreases s.len(),
{
    if prunable(s) {
        1 + prune_count(prune_step(s))
    } else {
        0
    }
}

/// Pruning every leading comment loop is idempotent: once everything is
/// removed, another pass removes nothing and changes nothing.
pub proof fn lemma_prune_all_idempotent(s: Seq<Instruction>)
    ensures
        prune_count(pruned_all(s)) == 0,
        pruned_all(pruned_all(s)) == pruned_all(s),
    decreases s.len(),
{
    if prunable(s) {
        lemma_prune_all_idempotent(prune_step(s));
    }
}

/// A pending loop opening on the builder's stack: it opened at `o`, at
/// nesting depth `t`, and its closing has not yet been seen before `i`.
spec fn stack_entry_ok(s: Seq<Instruction>, i: int, t: int, o: usize) -> bool {
    &&& o < i
    &&& s[o as int] == Instruction::LoopOpen
    &&& depth(s, o as int) == t
    &&& forall|k: int|
        o < k < i && s[k] == Instruction::LoopClose ==> #[trigger] depth(s, k) != t + 1
}

/// A read-only mapping from each loop instruction's index to its
/// partner's index; see [`jump_table_correct`].
pub struct JumpTable {
    table: HashMap<usize, usize>,
}

impl View for JumpTable {
    type V = Map<usize, usize>;

    closed spec fn view(&self) -> Map<usize, usize> {
        self.table@
    }
}

impl JumpTable {
    /// The partner index recorded for a loop instruction's index.
    pub fn get(&self, index: usize) -> (r: usize)
        requires
            self@.dom().contains(index),
        ensures
            r == self@[index],
    {
        *self.table.get(&index).unwrap()
    }

    /// Whether an index is recorded in the table.
    pub fn contains(&self, index: usize) -> (r: bool)
        ensures
            r == self@.dom().contains(index),
    {
        self.table.contains_key(&index)
    }

    /// How many indices are recorded.
    pub fn len(&self) -> (r: usize)
        ensures
            r == self@.dom().len(),
    {
        self.table.len()
    }
}

/// Whether an instruction opens or closes a loop.
pub open spec fn is_loop_instr(inst: Instruction) -> bool {
    inst == Instruction::LoopOpen || inst == Instruction::LoopClose
}

/// Whether `m` is the jump table of `s`: its keys are exactly the loop
/// instructions of `s`, each maps to its partner, and the two directions
/// of every pair mirror one another.
pub open spec fn jump_table_correct(s: Seq<Instruction>, m: Map<usize, usize>) -> bool {
    &&& forall|k: int|
        0 <= k < s.len() && is_loop_instr(#[trigger] s[k]) ==> m.dom().contains(k as usize)
    &&& forall|k: usize| #[trigger] m.dom().contains(k) ==> k < s.len() && is_loop_instr(s[k as int])
    &&& forall|k: usize|
        #[trigger] m.dom().contains(k) && s[k as int] == Instruction::LoopOpen ==> is_match(
            s,
            k as int,
            m[k] as int,
        )
    &&& forall|k: usize|
        #[trigger] m.dom().contains(k) && s[k as int] == Instruction::LoopClose ==> is_match(
            s,
            m[k] as int,
            k as int,
        )
    &&& forall|k: usize| #[trigger] m.dom().contains(k) ==> m.dom().contains(m[k]) && m[m[k]] == k
}

/// Jump-table symmetry: each key maps to a partner key that maps back,
/// so matched pairs are recorded in both directions exactly once.
pub proof fn lemma_jump_table_symmetric(s: Seq<Instruction>, m: Map<usize, usize>, k: usize)
    requires
        jump_table_correct(s, m),
        m.dom().contains(k),
    ensures
        m.dom().contains(m[k]),
        m[m[k]] == k,
{
}

/// Depth inside a tail of `s`, related to depth in `s` itself.
proof fn lemma_depth_subrange(s: Seq<Instruction>, a: int, i: int)
    requires
        0 <= a,
        0 <= i,
        a + i <= s.len(),
    ensures
        depth(s.subrange(a, s.len() as int), i) == depth(s, a + i) - depth(s, a),
    decreases i,
{
    if i > 0 {
        lemma_depth_subrange(s, a, i - 1);
        assert(s.subrange(a, s.len() as int)[i - 1] == s[a + i - 1]);
    }
}

/// Appending one run to a list of runs appends its expansion.
proof fn lemma_expand_push(runs: Seq<RLE<Instruction>>, p: RLE<Instruction>)
    ensures
        expand(runs.push(p)) == expand(runs) + Seq::new(p.count() as nat, |x: int| p.value()),
    decreases runs.len(),
{
    reveal_with_fuel(expand, 2);
    let rep = Seq::new(p.count() as nat, |x: int| p.value());
    if runs.len() == 0 {
        assert(runs.push(p).drop_first() =~= Seq::<RLE<Instruction>>::empty());
        assert(runs.push(p)[0] == p);
        assert(expand(runs.push(p)) =~= expand(runs) + rep);
    } else {
        lemma_expand_push(runs.drop_first(), p);
        assert(runs.push(p).drop_first() =~= runs.drop_first().push(p));
        assert(runs.push(p)[0] == runs[0]);
        assert(expand(runs.push(p)) == Seq::new(runs[0].count() as nat, |x: int| runs[0].value())
            + expand(runs.drop_first().push(p)));
        assert(expand(runs) == Seq::new(runs[0].count() as nat, |x: int| runs[0].value()) + expand(
            runs.drop_first(),
        ));
        assert(expand(runs.push(p)) =~= expand(runs) + rep);
    }
}

/// Appending one instruction leaves the depth of shorter prefixes alone.
proof fn lemma_depth_push(s: Seq<Instruction>, x: Instruction, i: int)
    requires
        0 <= i <= s.len(),
    ensures
        depth(s.push(x), i) == depth(s, i),
    decreases i,
{
    if i > 0 {
        lemma_depth_push(s, x, i - 1);
        assert(s.push(x)[i - 1] == s[i - 1]);
    }
}

/// Evaluates, checks and sanitises source text: comment characters are
/// discarded, bracket nesting is validated, and error positions count
/// every character of the original text.
pub fn eval_instr(instr_str: &str) -> (r: Result<InstructionSet, EvalError>)
    ensures
        match r {
            Ok(iset) => {
                &&& lex_ok_upto(instr_str@, instr_str@.len() as int)
                &&& char_depth(instr_str@, instr_str@.len() as int) == 0
                &&& iset@ == lex_filter(instr_str@)
            },
            Err(EvalError::LoopOverload(p)) => {
                &&& p < instr_str@.len()
                &&& lex_ok_upto(instr_str@, p as int)
                &&& instr_str@[p as int] == '['
                &&& char_depth(instr_str@, p as int) == MAX_LOOP_DEPTH as int
            },
            Err(EvalError::UnnecesseryBracket(p)) => {
                &&& p < instr_str@.len()
                &&& lex_ok_upto(instr_str@, p as int)
                &&& instr_str@[p as int] == ']'
                &&& char_depth(instr_str@, p as int) == 0
            },
            Err(EvalError::UnclosedBracket(n)) => {
                &&& lex_ok_upto(instr_str@, instr_str@.len() as int)
                &&& n as int == char_depth(instr_str@, instr_str@.len() as int)
                &&& n > 0
            },
        },
{
    let chars = to_char_vec(instr_str);
    let ghost s = instr_str@;
    let n = chars.len();
    let mut output: Vec<Instruction> = Vec::new();
    let mut loop_count: u16 = 0;
    let mut i: usize = 0;

    while i < n
        invariant
            s == instr_str@,
            n == s.len(),
            chars@ == s,
            0 <= i <= n,
            lex_ok_upto(s, i as int),
            loop_count as int == char_depth(s, i as int),
            output@ == lex_prefix(s, i as int),
            depth(output@, output@.len() as int) == loop_count as int,
            forall|k: int|
                0 <= k <= output@.len() ==> 0 <= #[trigger] depth(output@, k)
                    <= MAX_LOOP_DEPTH as int,
        decreases n - i,
    {
        let chr = chars[i];
        let inst_opt: Option<Instruction> = match chr {
            '>' => Some(Instruction::Right),
            '<' => Some(Instruction::Left),
            '+' => Some(Instruction::Increment),
            '-' => Some(Instruction::Decrement),
            '[' => {
                if loop_count == MAX_LOOP_DEPTH {
                    return Err(EvalError::LoopOverload(i));
                }
                loop_count = loop_count + 1;
                Some(Instruction::LoopOpen)
            },
            ']' => {
                if loop_count == 0 {
                    return Err(EvalError::UnnecesseryBracket(i));
                }
                loop_count = loop_count - 1;
                Some(Instruction::LoopClose)
            },
            '.' => Some(Instruction::Output),
            ',' => Some(Instruction::Input),
            _ => None,
        };
        proof {
            assert(lex_ok_at(s, i as int));
        }
        match inst_opt {
            Some(inst) => {
                proof {
                    assert forall|k: int| 0 <= k <= output@.len() implies 0 <= #[trigger] depth(
                        output@.push(inst),
                        k,
                    ) <= MAX_LOOP_DEPTH as int by {
                        lemma_depth_push(output@, inst, k);
                    }
                    lemma_depth_push(output@, inst, output@.len() as int);
                }
                output.push(inst);
            },
            None => {
            },
        }
        i = i + 1;
    }

    if loop_count != 0 {
        return Err(EvalError::UnclosedBracket(loop_count));
    }

    Ok(InstructionSet { instructions: output })
}

} // verus!

