//! The top-down register allocator: usage counts, priority order, greedy
//! assignment of the free physical registers, stack slots for the rest.
//!
//! Priority is usage count descending, ties broken by ascending vreg
//! index; `spec_prio_leq` is that order. The contract of `top_down_init`
//! pins the allocation down: every vreg gets exactly one location, a
//! stack-resident vreg never outranks a register-resident one, the
//! assigned registers are distinct members of the free pool, and stack
//! slots are dense and numbered in priority order.

use vstd::prelude::*;
use vstd::seq_lib::group_to_multiset_ensures;

use crate::code_gen::Ctx;
use crate::ir::ir_types::IRBlock;
use crate::ir::ir_types::IReg;
use crate::ir::ir_types::SpecIROp;
use crate::ir::ir_types::spec_op_operands;
use crate::ir::ir_types::spec_ops_wf;
use crate::ir::ir_types::spec_total_operands;

verus! {

broadcast use group_to_multiset_ensures;

/// The physical registers of the target machine.
#[derive(Debug, PartialEq, Eq, Clone, Copy, Structural, Hash)]
pub enum Register {
    RAX,
    RBX,
    RCX,
    RDX,
    RDI,
    RSI,
    R8,
    R9,
    R10,
    R11,
    R12,
    R13,
    R14,
    R15,
    RSP,
}

/// A location: a physical register or a stack slot index.
#[derive(Debug, PartialEq, Eq, Clone, Copy, Structural)]
pub enum Memory {
    Register(Register),
    Stack(usize),
}

/// The registers reserved for transient spill traffic, disjoint from
/// the assignable pool.
pub open spec fn spec_starting_scratches() -> Seq<Register> {
    seq![Register::RAX, Register::RDX, Register::RDI]
}

/// The pool of registers available for vreg assignment, in assignment
/// order.
pub open spec fn spec_starter_free() -> Seq<Register> {
    seq![
        Register::RBX,
        Register::RCX,
        Register::RSI,
        Register::R8,
        Register::R9,
        Register::R10,
        Register::R11,
        Register::R12,
        Register::R14,
        Register::R15,
    ]
}

pub fn get_starting_scratches() -> (r: Vec<Register>)
    ensures
        r@ == spec_starting_scratches(),
{
    let mut r: Vec<Register> = Vec::new();
    r.push(Register::RAX);
    r.push(Register::RDX);
    r.push(Register::RDI);
    proof {
        assert(r@ =~= spec_starting_scratches());
    }
    r
}

pub fn get_starter_free() -> (r: Vec<Register>)
    ensures
        r@ == spec_starter_free(),
{
    let mut r: Vec<Register> = Vec::new();
    r.push(Register::RBX);
    r.push(Register::RCX);
    r.push(Register::RSI);
    r.push(Register::R8);
    r.push(Register::R9);
    r.push(Register::R10);
    r.push(Register::R11);
    r.push(Register::R12);
    r.push(Register::R14);
    r.push(Register::R15);
    proof {
        assert(r@ =~= spec_starter_free());
    }
    r
}

/// Takes one register from the pool, newest first.
pub fn allocate_scratch(scratches: &mut Vec<Register>) -> (r: Option<Register>)
    ensures
        match r {
            Some(reg) => old(scratches)@.len() > 0 && reg == old(scratches)@.last()
                && final(scratches)@ == old(scratches)@.drop_last(),
            None => old(scratches)@.len() == 0 && final(scratches)@ == old(scratches)@,
        },
{
    scratches.pop()
}

/// Returns a register to the pool.
pub fn free_scratch(reg: Register, scratches: &mut Vec<Register>)
    ensures
        final(scratches)@ == old(scratches)@.push(reg),
{
    scratches.push(reg);
}

/// How often `v` occurs in a list of operands.
pub open spec fn spec_count(s: Seq<IReg>, v: IReg) -> nat
    decreases s.len(),
{
    if s.len() == 0 {
        0
    } else {
        spec_count(s.drop_last(), v) + if s.last() == v {
            1nat
        } else {
            0nat
        }
    }
}

/// The usage count of vreg `v`: one per occurrence as an operand
/// anywhere in the op sequence. A vreg's own defining position does not
/// count.
pub open spec fn spec_usage(ops: Seq<SpecIROp>, v: IReg) -> nat
    decreases ops.len(),
{
    if ops.len() == 0 {
        0
    } else {
        spec_usage(ops.drop_last(), v) + spec_count(spec_op_operands(ops.last()), v)
    }
}

/// The priority order on (usage count, vreg) pairs: higher usage first,
/// ties by ascending vreg index. Total and, on distinct vregs,
/// antisymmetric.
pub open spec fn spec_prio_leq(a: (usize, usize), b: (usize, usize)) -> bool {
    a.0 > b.0 || (a.0 == b.0 && a.1 <= b.1)
}

fn prio_leq(a: (usize, usize), b: (usize, usize)) -> (r: bool)
    ensures
        r == spec_prio_leq(a, b),
{
    a.0 > b.0 || (a.0 == b.0 && a.1 <= b.1)
}

proof fn lemma_count_le_len(s: Seq<IReg>, v: IReg)
    ensures
        spec_count(s, v) <= s.len(),
    decreases s.len(),
{
    if s.len() > 0 {
        lemma_count_le_len(s.drop_last(), v);
    }
}

proof fn lemma_usage_le_total(ops: Seq<SpecIROp>, v: IReg)
    ensures
        spec_usage(ops, v) <= spec_total_operands(ops),
    decreases ops.len(),
{
    if ops.len() > 0 {
        lemma_usage_le_total(ops.drop_last(), v);
        lemma_count_le_len(spec_op_operands(ops.last()), v);
    }
}

proof fn lemma_count_take_le(s: Seq<IReg>, k: int, v: IReg)
    requires
        0 <= k <= s.len(),
    ensures
        spec_count(s.take(k), v) <= spec_count(s, v),
    decreases s.len() - k,
{
    if k == s.len() {
        assert(s.take(k) =~= s);
    } else {
        assert(s.take(k + 1).drop_last() =~= s.take(k));
        assert(s.take(k + 1).last() == s[k]);
        lemma_count_take_le(s, k + 1, v);
    }
}

proof fn lemma_total_take_le(ops: Seq<SpecIROp>, k: int)
    requires
        0 <= k <= ops.len(),
    ensures
        spec_total_operands(ops.take(k)) <= spec_total_operands(ops),
    decreases ops.len() - k,
{
    if k == ops.len() {
        assert(ops.take(k) =~= ops);
    } else {
        assert(ops.take(k + 1).drop_last() =~= ops.take(k));
        assert(ops.take(k + 1).last() == ops[k]);
        lemma_total_take_le(ops, k + 1);
    }
}

/// Sets one usage count up by one.
fn bump(counts: &mut Vec<usize>, v: usize)
    requires
        v < old(counts)@.len(),
        old(counts)@[v as int] < usize::MAX,
    ensures
        final(counts)@ == old(counts)@.update(v as int, (old(counts)@[v as int] + 1) as usize),
{
    let cur = counts[v];
    *vstd::std_specs::vec::vec_index_mut(counts, v) = cur + 1;
}

/// The usage pass: one count per vreg, incremented once per occurrence
/// of that vreg as an operand anywhere in the op sequence.
fn usage_counts(ops: &Vec<crate::ir::ir_types::IROp>) -> (counts: Vec<usize>)
    requires
        spec_ops_wf(ops.deep_view()),
        spec_total_operands(ops.deep_view()) <= usize::MAX,
    ensures
        counts@.len() == ops@.len(),
        forall|v: usize|
            v < counts@.len() ==> #[trigger] counts@[v as int] == spec_usage(ops.deep_view(), v),
{
    let ghost opsv = ops.deep_view();
    let n = ops.len();
    let mut counts: Vec<usize> = Vec::new();
    let mut v0: usize = 0;
    while v0 < n
        invariant
            v0 <= n,
            counts@.len() == v0,
            forall|t: int| 0 <= t < v0 ==> #[trigger] counts@[t] == 0,
        decreases n - v0,
    {
        counts.push(0);
        v0 = v0 + 1;
    }
    proof {
        assert(opsv.take(0) =~= Seq::<SpecIROp>::empty());
    }
    let mut i: usize = 0;
    while i < n
        invariant
            i <= n,
            n == opsv.len(),
            opsv == ops.deep_view(),
            spec_ops_wf(opsv),
            spec_total_operands(opsv) <= usize::MAX,
            counts@.len() == n,
            forall|v: usize|
                v < n ==> #[trigger] counts@[v as int] == spec_usage(opsv.take(i as int), v),
        decreases n - i,
    {
        let ghost pre = opsv.take(i as int);
        let ghost post = opsv.take(i as int + 1);
        proof {
            assert(post.drop_last() =~= pre);
            assert(post.last() == opsv[i as int]);
            lemma_total_take_le(opsv, i as int + 1);
        }
        let op = &ops[i];
        match op {
            crate::ir::ir_types::IROp::Load(_) => {
                proof {
                    assert(spec_count(Seq::<IReg>::empty(), 0) == 0);
                    assert forall|v: usize| v < n implies #[trigger] counts@[v as int]
                        == spec_usage(post, v) by {
                        assert(spec_count(spec_op_operands(opsv[i as int]), v) == 0);
                    }
                }
            },
            crate::ir::ir_types::IROp::Mov(r, _) => {
                bump_one(&mut counts, *r, Ghost(opsv), Ghost(i as int));
            },
            crate::ir::ir_types::IROp::Store(r, _) => {
                bump_one(&mut counts, *r, Ghost(opsv), Ghost(i as int));
            },
            crate::ir::ir_types::IROp::Add(a, b) => {
                bump_two(&mut counts, *a, *b, Ghost(opsv), Ghost(i as int));
            },
            crate::ir::ir_types::IROp::Sub(a, b) => {
                bump_two(&mut counts, *a, *b, Ghost(opsv), Ghost(i as int));
            },
            crate::ir::ir_types::IROp::Mul(a, b) => {
                bump_two(&mut counts, *a, *b, Ghost(opsv), Ghost(i as int));
            },
            crate::ir::ir_types::IROp::Call(_, regs) => {
                let ghost regsv = spec_op_operands(opsv[i as int]);
                proof {
                    assert(regsv == regs@);
                    assert(regsv.take(0) =~= Seq::<IReg>::empty());
                }
                let m = regs.len();
                let mut j: usize = 0;
                while j < m
                    invariant
                        j <= m,
                        m == regsv.len(),
                        regsv == regs@,
                        regsv == spec_op_operands(opsv[i as int]),
                        i < n,
                        n == opsv.len(),
                        opsv == ops.deep_view(),
                        spec_ops_wf(opsv),
                        spec_total_operands(opsv) <= usize::MAX,
                        counts@.len() == n,
                        pre == opsv.take(i as int),
                        post == opsv.take(i as int + 1),
                        forall|v: usize|
                            v < n ==> #[trigger] counts@[v as int] == spec_usage(pre, v)
                                + spec_count(regsv.take(j as int), v),
                    decreases m - j,
                {
                    proof {
                        assert(regsv.take(j as int + 1).drop_last() =~= regsv.take(j as int));
                        assert(regsv.take(j as int + 1).last() == regsv[j as int]);
                        lemma_count_take_le(regsv, j as int + 1, regsv[j as int]);
                        lemma_usage_le_total(post, regsv[j as int]);
                        lemma_total_take_le(opsv, i as int + 1);
                        assert(post.drop_last() =~= pre);
                        assert(post.last() == opsv[i as int]);
                        assert(spec_op_operands(opsv[i as int])[j as int] < i as int);
                    }
                    let r = regs[j];
                    bump(&mut counts, r);
                    j = j + 1;
                    proof {
                        assert forall|v: usize| v < n implies #[trigger] counts@[v as int]
                            == spec_usage(pre, v) + spec_count(regsv.take(j as int), v) by {
                            assert(regsv.take(j as int).drop_last() =~= regsv.take(j as int - 1));
                            assert(regsv.take(j as int).last() == regsv[j as int - 1]);
                        }
                    }
                }
                proof {
                    assert(regsv.take(m as int) =~= regsv);
                    assert(post.drop_last() =~= pre);
                    assert(post.last() == opsv[i as int]);
                }
            },
        }
        i = i + 1;
    }
    proof {
        assert(opsv.take(n as int) =~= opsv);
    }
    counts
}

/// Counts both operands of a two-operand op at position `i`.
fn bump_two(
    counts: &mut Vec<usize>,
    a: usize,
    b: usize,
    Ghost(opsv): Ghost<Seq<SpecIROp>>,
    Ghost(i): Ghost<int>,
)
    requires
        spec_ops_wf(opsv),
        spec_total_operands(opsv) <= usize::MAX,
        0 <= i < opsv.len(),
        spec_op_operands(opsv[i]) == seq![a, b],
        old(counts)@.len() == opsv.len(),
        forall|v: usize|
            v < old(counts)@.len() ==> #[trigger] old(counts)@[v as int] == spec_usage(
                opsv.take(i),
                v,
            ),
    ensures
        final(counts)@.len() == old(counts)@.len(),
        forall|v: usize|
            v < final(counts)@.len() ==> #[trigger] final(counts)@[v as int] == spec_usage(
                opsv.take(i + 1),
                v,
            ),
{
    let ghost pre = opsv.take(i);
    let ghost post = opsv.take(i + 1);
    proof {
        assert(post.drop_last() =~= pre);
        assert(post.last() == opsv[i]);
        assert(seq![a, b].drop_last() =~= seq![a]);
        assert(seq![a].drop_last() =~= Seq::<IReg>::empty());
        assert(spec_op_operands(opsv[i])[0] < i);
        assert(spec_op_operands(opsv[i])[1] < i);
        assert(spec_count(Seq::<IReg>::empty(), a) == 0);
        assert(spec_count(seq![a], a) == 1);
        assert(spec_count(seq![a, b], a) >= 1);
        assert(spec_count(Seq::<IReg>::empty(), b) == 0);
        assert(spec_count(seq![a], b) == if a == b {
            1nat
        } else {
            0nat
        });
        assert(spec_count(seq![a, b], b) >= 1);
        lemma_usage_le_total(post, a);
        lemma_usage_le_total(post, b);
        lemma_total_take_le(opsv, i + 1);
    }
    bump(counts, a);
    proof {
        if a == b {
            assert(spec_count(seq![a, b], b) == 2);
        }
        lemma_usage_le_total(post, b);
    }
    bump(counts, b);
    proof {
        assert forall|v: usize| v < counts@.len() implies #[trigger] counts@[v as int]
            == spec_usage(post, v) by {
            let vv = v;
            assert(seq![a, b].drop_last() =~= seq![a]);
            assert(seq![a].drop_last() =~= Seq::<IReg>::empty());
            assert(spec_count(Seq::<IReg>::empty(), vv) == 0);
            assert(spec_count(seq![a], vv) == if a == vv {
                1nat
            } else {
                0nat
            });
            assert(spec_count(seq![a, b], vv) == spec_count(seq![a], vv) + if b == vv {
                1nat
            } else {
                0nat
            });
            assert(spec_usage(post, vv) == spec_usage(pre, vv) + spec_count(seq![a, b], vv));
        }
    }
}

/// Counts the single operand of a one-operand op at position `i`.
fn bump_one(
    counts: &mut Vec<usize>,
    a: usize,
    Ghost(opsv): Ghost<Seq<SpecIROp>>,
    Ghost(i): Ghost<int>,
)
    requires
        spec_ops_wf(opsv),
        spec_total_operands(opsv) <= usize::MAX,
        0 <= i < opsv.len(),
        spec_op_operands(opsv[i]) == seq![a],
        old(counts)@.len() == opsv.len(),
        forall|v: usize|
            v < old(counts)@.len() ==> #[trigger] old(counts)@[v as int] == spec_usage(
                opsv.take(i),
                v,
            ),
    ensures
        final(counts)@.len() == old(counts)@.len(),
        forall|v: usize|
            v < final(counts)@.len() ==> #[trigger] final(counts)@[v as int] == spec_usage(
                opsv.take(i + 1),
                v,
            ),
{
    let ghost pre = opsv.take(i);
    let ghost post = opsv.take(i + 1);
    proof {
        assert(post.drop_last() =~= pre);
        assert(post.last() == opsv[i]);
        assert(seq![a].drop_last() =~= Seq::<IReg>::empty());
        assert(spec_op_operands(opsv[i])[0] < i);
        assert(spec_count(Seq::<IReg>::empty(), a) == 0);
        assert(spec_count(seq![a], a) == 1);
        lemma_usage_le_total(post, a);
        lemma_total_take_le(opsv, i + 1);
    }
    bump(counts, a);
    proof {
        assert forall|v: usize| v < counts@.len() implies #[trigger] counts@[v as int]
            == spec_usage(post, v) by {
            let vv = v;
            assert(seq![a].drop_last() =~= Seq::<IReg>::empty());
            assert(spec_count(Seq::<IReg>::empty(), vv) == 0);
            assert(spec_count(seq![a], vv) == if a == vv {
                1nat
            } else {
                0nat
            });
            assert(spec_usage(post, vv) == spec_usage(pre, vv) + spec_count(seq![a], vv));
        }
    }
}

/// Sorts priority pairs into priority order: a permutation, sorted by
/// `spec_prio_leq`.
fn sort_prios(input: Vec<(usize, usize)>) -> (out: Vec<(usize, usize)>)
    ensures
        out@.len() == input@.len(),
        out@.to_multiset() == input@.to_multiset(),
        forall|x: int, y: int|
            0 <= x < y < out@.len() ==> spec_prio_leq(#[trigger] out@[x], #[trigger] out@[y]),
{
    let ghost orig = input@;
    let mut work = input;
    let mut out: Vec<(usize, usize)> = Vec::new();
    while work.len() > 0
        invariant
            out@.len() + work@.len() == orig.len(),
            forall|x: (usize, usize)|
                #![trigger orig.to_multiset().count(x)]
                out@.to_multiset().count(x) + work@.to_multiset().count(x)
                    == orig.to_multiset().count(x),
            forall|x: int, y: int|
                0 <= x < y < out@.len() ==> spec_prio_leq(#[trigger] out@[x], #[trigger] out@[y]),
            forall|x: int, j: int|
                0 <= x < out@.len() && 0 <= j < work@.len() ==> spec_prio_leq(
                    #[trigger] out@[x],
                    #[trigger] work@[j],
                ),
        decreases work@.len(),
    {
        let mut m: usize = 0;
        let mut j: usize = 1;
        while j < work.len()
            invariant
                m < j <= work@.len(),
                work@.len() > 0,
                forall|t: int| 0 <= t < j ==> spec_prio_leq(work@[m as int], #[trigger] work@[t]),
            decreases work@.len() - j,
        {
            if !prio_leq(work[m], work[j]) {
                m = j;
            }
            j = j + 1;
        }
        let e = work[m];
        let ghost pre_out = out@;
        let ghost pre_work = work@;
        out.push(e);
        work.remove(m);
        proof {
            assert(out@ == pre_out.push(e));
            assert(work@ == pre_work.remove(m as int));
            assert(out@.to_multiset() =~= pre_out.to_multiset().insert(e));
            assert(work@.to_multiset() =~= pre_work.to_multiset().remove(e));
            assert(pre_work.to_multiset().count(e) > 0);
            assert forall|x: int, j2: int|
                0 <= x < out@.len() && 0 <= j2 < work@.len() implies spec_prio_leq(
                #[trigger] out@[x],
                #[trigger] work@[j2],
            ) by {
                if j2 < m as int {
                    assert(work@[j2] == pre_work[j2]);
                } else {
                    assert(work@[j2] == pre_work[j2 + 1]);
                }
            }
        }
    }
    proof {
        assert(out@.to_multiset() =~= orig.to_multiset()) by {
            assert(work@.to_multiset().len() == 0);
            assert forall|x: (usize, usize)| true implies out@.to_multiset().count(x)
                == orig.to_multiset().count(x) by {
                assert(work@.to_multiset().count(x) == 0);
            }
        }
    }
    out
}

/// The priority pair of a vreg: its usage count and its index.
pub open spec fn spec_prio_pair(ops: Seq<SpecIROp>, v: usize) -> (usize, usize) {
    (spec_usage(ops, v) as usize, v)
}

/// Every vreg's priority pair, by vreg index.
pub open spec fn spec_pairs_of(ops: Seq<SpecIROp>) -> Seq<(usize, usize)> {
    Seq::new(ops.len(), |v: int| spec_prio_pair(ops, v as usize))
}

/// The location handed to the vreg of rank `k`: the `k`-th free
/// register while the pool lasts, then stack slots in rank order.
pub open spec fn spec_rank_loc(k: int, f: int) -> Memory {
    if k < f {
        Memory::Register(spec_starter_free()[k])
    } else {
        Memory::Stack((k - f) as usize)
    }
}

/// A priority order of the block's vregs: each vreg's pair exactly
/// once, sorted by priority.
pub open spec fn spec_alloc_order(ops: Seq<SpecIROp>, order: Seq<(usize, usize)>) -> bool {
    &&& order.len() == ops.len()
    &&& order.to_multiset() == spec_pairs_of(ops).to_multiset()
    &&& forall|x: int, y: int|
        0 <= x < y < order.len() ==> spec_prio_leq(#[trigger] order[x], #[trigger] order[y])
}

/// The map assigns each vreg the location of its rank.
pub open spec fn spec_rank_assignment(order: Seq<(usize, usize)>, rtol: Seq<Memory>) -> bool {
    forall|k: int|
        0 <= k < order.len() ==> rtol[#[trigger] order[k].1 as int] == spec_rank_loc(
            k,
            spec_starter_free().len() as int,
        )
}

/// Every vreg of the block has a rank in any priority order of it.
proof fn lemma_order_covers(ops: Seq<SpecIROp>, order: Seq<(usize, usize)>, t: usize)
    requires
        order.len() == ops.len(),
        order.to_multiset() == spec_pairs_of(ops).to_multiset(),
        (t as int) < ops.len(),
    ensures
        exists|k: int| 0 <= k < order.len() && (#[trigger] order[k]).1 == t,
{
    let pairs = spec_pairs_of(ops);
    assert(pairs[t as int] == spec_prio_pair(ops, t));
    assert(pairs.contains(spec_prio_pair(ops, t)));
    assert(pairs.to_multiset().count(spec_prio_pair(ops, t)) > 0);
    assert(order.to_multiset().count(spec_prio_pair(ops, t)) > 0);
    assert(order.contains(spec_prio_pair(ops, t)));
    let k = choose|k: int| 0 <= k < order.len() && order[k] == spec_prio_pair(ops, t);
    assert(order[k].1 == t);
}

/// Writes one location.
fn set_loc(rtol: &mut Vec<Memory>, i: usize, x: Memory)
    requires
        i < old(rtol)@.len(),
    ensures
        final(rtol)@ == old(rtol)@.update(i as int, x),
{
    *vstd::std_specs::vec::vec_index_mut(rtol, i) = x;
}

/// The priority-driven vreg-to-location map of one block, computed in
/// full before any instruction is emitted.
///
/// Usage counts are taken over the whole op sequence; vregs are ranked
/// by usage descending with ties broken by ascending index; the free
/// registers are bound in pool order to the highest ranks and every
/// remaining vreg gets a stack slot numbered in rank order. Registers
/// that no vreg needed join the scratch pool.
pub fn top_down_init(block: &IRBlock) -> (ctx: Ctx)
    requires
        spec_ops_wf(block.ctx.ops.deep_view()),
        spec_total_operands(block.ctx.ops.deep_view()) <= usize::MAX,
    ensures
        ({
            let ops = block.ctx.ops.deep_view();
            let n = ops.len() as int;
            let f = spec_starter_free().len() as int;
            &&& ctx.rtol@.len() == n
            &&& ctx.stack_size == (if n > f {
                n - f
            } else {
                0int
            })
            &&& ctx.scratches@ == spec_starting_scratches() + (if n < f {
                spec_starter_free().subrange(n, f)
            } else {
                Seq::<Register>::empty()
            })
            &&& exists|order: Seq<(usize, usize)>|
                #[trigger] spec_alloc_order(ops, order) && spec_rank_assignment(order, ctx.rtol@)
            &&& forall|v: usize, w: usize|
                v < n && w < n && v != w ==> #[trigger] ctx.rtol@[v as int] != #[trigger] ctx.rtol@[w as int]
            &&& forall|v: usize, w: usize|
                v < n && w < n && (#[trigger] ctx.rtol@[v as int]) is Register
                    && (#[trigger] ctx.rtol@[w as int]) is Stack ==> spec_prio_leq(
                    spec_prio_pair(ops, v),
                    spec_prio_pair(ops, w),
                )
            &&& forall|v: usize|
                v < n ==> match #[trigger] ctx.rtol@[v as int] {
                    Memory::Register(r) => spec_starter_free().contains(r),
                    Memory::Stack(s) => s < ctx.stack_size,
                }
        }),
{
    let ghost opsv = block.ctx.ops.deep_view();
    let n = block.ctx.ops.len();
    let counts = usage_counts(&block.ctx.ops);
    let mut prios: Vec<(usize, usize)> = Vec::new();
    let mut v: usize = 0;
    while v < n
        invariant
            v <= n,
            n == opsv.len(),
            opsv == block.ctx.ops.deep_view(),
            counts@.len() == n,
            forall|t: usize| t < n ==> #[trigger] counts@[t as int] == spec_usage(opsv, t),
            prios@.len() == v,
            forall|t: int| 0 <= t < v ==> #[trigger] prios@[t] == spec_pairs_of(opsv)[t],
        decreases n - v,
    {
        let c = counts[v];
        prios.push((c, v));
        v = v + 1;
    }
    proof {
        assert(prios@ =~= spec_pairs_of(opsv));
    }
    let ghost pairs = spec_pairs_of(opsv);
    let sorted = sort_prios(prios);
    let ghost sortedv = sorted@;
    proof {
        // Each entry of the sorted order is some vreg's priority pair.
        assert forall|k: int| 0 <= k < n implies (#[trigger] sortedv[k]).1 < n && sortedv[k]
            == spec_prio_pair(opsv, sortedv[k].1) by {
            assert(sortedv.to_multiset().count(sortedv[k]) > 0);
            assert(pairs.to_multiset().count(sortedv[k]) > 0);
            assert(pairs.contains(sortedv[k]));
            let j = choose|j: int| 0 <= j < pairs.len() && pairs[j] == sortedv[k];
            assert(pairs[j] == spec_prio_pair(opsv, j as usize));
        }
        // No vreg appears twice.
        assert(pairs.no_duplicates()) by {
            assert forall|x: int, y: int|
                0 <= x < pairs.len() && 0 <= y < pairs.len() && x != y implies pairs[x]
                != pairs[y] by {
                assert(pairs[x].1 == x as usize);
                assert(pairs[y].1 == y as usize);
            }
        }
        pairs.lemma_multiset_has_no_duplicates();
        sortedv.lemma_multiset_has_no_duplicates_conv();
        assert(sortedv.no_duplicates());
        assert forall|k1: int, k2: int|
            0 <= k1 < n && 0 <= k2 < n && k1 != k2 implies (#[trigger] sortedv[k1]).1
            != (#[trigger] sortedv[k2]).1 by {
            if sortedv[k1].1 == sortedv[k2].1 {
                assert(sortedv[k1] == spec_prio_pair(opsv, sortedv[k1].1));
                assert(sortedv[k2] == spec_prio_pair(opsv, sortedv[k2].1));
            }
        }
    }
    let free = get_starter_free();
    let fl = free.len();
    let mut rtol: Vec<Memory> = Vec::new();
    let mut t0: usize = 0;
    while t0 < n
        invariant
            t0 <= n,
            rtol@.len() == t0,
        decreases n - t0,
    {
        rtol.push(Memory::Stack(0));
        t0 = t0 + 1;
    }
    let mut k: usize = 0;
    while k < n
        invariant
            k <= n,
            n == opsv.len(),
            n == sortedv.len(),
            sortedv == sorted@,
            rtol@.len() == n,
            fl == spec_starter_free().len(),
            free@ == spec_starter_free(),
            forall|t: int|
                0 <= t < n ==> (#[trigger] sortedv[t]).1 < n && sortedv[t] == spec_prio_pair(
                    opsv,
                    sortedv[t].1,
                ),
            forall|k1: int, k2: int|
                0 <= k1 < n && 0 <= k2 < n && k1 != k2 ==> (#[trigger] sortedv[k1]).1
                    != (#[trigger] sortedv[k2]).1,
            forall|t: int|
                0 <= t < k ==> rtol@[(#[trigger] sortedv[t]).1 as int] == spec_rank_loc(
                    t,
                    fl as int,
                ),
        decreases n - k,
    {
        let p = sorted[k];
        let loc = if k < fl {
            Memory::Register(free[k])
        } else {
            Memory::Stack(k - fl)
        };
        proof {
            assert(sortedv[k as int].1 < n);
            assert(loc == spec_rank_loc(k as int, fl as int));
        }
        set_loc(&mut rtol, p.1, loc);
        k = k + 1;
    }
    let mut scratches = get_starting_scratches();
    let mut t1: usize = n;
    while t1 < fl
        invariant
            n <= t1 <= fl || (t1 == n && n >= fl),
            fl == spec_starter_free().len(),
            free@ == spec_starter_free(),
            n < fl ==> scratches@ == spec_starting_scratches() + spec_starter_free().subrange(
                n as int,
                t1 as int,
            ),
            n >= fl ==> scratches@ == spec_starting_scratches(),
        decreases fl - t1,
    {
        let reg = free[t1];
        scratches.push(reg);
        t1 = t1 + 1;
        proof {
            assert(scratches@ =~= spec_starting_scratches() + spec_starter_free().subrange(
                n as int,
                t1 as int,
            ));
        }
    }
    let stack_size = if n > fl {
        n - fl
    } else {
        0
    };
    let ctx = Ctx { rtol, scratches, stack_size };
    proof {
        if n >= fl {
            assert(ctx.scratches@ =~= spec_starting_scratches() + Seq::<Register>::empty());
        }
        assert(spec_alloc_order(opsv, sortedv));
        assert(spec_rank_assignment(sortedv, ctx.rtol@));
        assert(free@.no_duplicates()) by {
            assert forall|x: int, y: int|
                0 <= x < free@.len() && 0 <= y < free@.len() && x != y implies free@[x]
                != free@[y] by {}
        }
        // Each vreg's location is the location of its unique rank.
        assert forall|t: usize| t < n implies #[trigger] ctx.rtol@[t as int] == spec_rank_loc(
            choose|k2: int| 0 <= k2 < n && (#[trigger] sortedv[k2]).1 == t,
            fl as int,
        ) by {
            lemma_order_covers(opsv, sortedv, t);
            let k2 = choose|k2: int| 0 <= k2 < n && (#[trigger] sortedv[k2]).1 == t;
            assert(0 <= k2 < n && sortedv[k2].1 == t);
        }
        assert forall|vx: usize, wx: usize| vx < n && wx < n && vx != wx implies #[trigger] ctx.rtol@[vx as int]
            != #[trigger] ctx.rtol@[wx as int] by {
            lemma_order_covers(opsv, sortedv, vx);
            lemma_order_covers(opsv, sortedv, wx);
            let kv = choose|k2: int| 0 <= k2 < n && (#[trigger] sortedv[k2]).1 == vx;
            let kw = choose|k2: int| 0 <= k2 < n && (#[trigger] sortedv[k2]).1 == wx;
            assert(0 <= kv < n && sortedv[kv].1 == vx);
            assert(0 <= kw < n && sortedv[kw].1 == wx);
            assert(kv != kw);
            if kv < fl as int && kw < fl as int {
                assert(free@[kv] != free@[kw]);
            }
        }
        assert forall|vx: usize, wx: usize|
            vx < n && wx < n && (#[trigger] ctx.rtol@[vx as int]) is Register
                && (#[trigger] ctx.rtol@[wx as int]) is Stack implies spec_prio_leq(
            spec_prio_pair(opsv, vx),
            spec_prio_pair(opsv, wx),
        ) by {
            lemma_order_covers(opsv, sortedv, vx);
            lemma_order_covers(opsv, sortedv, wx);
            let kv = choose|k2: int| 0 <= k2 < n && (#[trigger] sortedv[k2]).1 == vx;
            let kw = choose|k2: int| 0 <= k2 < n && (#[trigger] sortedv[k2]).1 == wx;
            assert(0 <= kv < n && sortedv[kv].1 == vx);
            assert(0 <= kw < n && sortedv[kw].1 == wx);
            assert(ctx.rtol@[vx as int] == spec_rank_loc(kv, fl as int));
            assert(ctx.rtol@[wx as int] == spec_rank_loc(kw, fl as int));
            assert(kv < fl as int);
            assert(kw >= fl as int);
            assert(spec_prio_leq(sortedv[kv], sortedv[kw]));
            assert(sortedv[kv] == spec_prio_pair(opsv, vx));
            assert(sortedv[kw] == spec_prio_pair(opsv, wx));
        }
        assert forall|vx: usize| vx < n implies match #[trigger] ctx.rtol@[vx as int] {
            Memory::Register(r) => spec_starter_free().contains(r),
            Memory::Stack(s) => s < ctx.stack_size,
        } by {
            lemma_order_covers(opsv, sortedv, vx);
            let kv = choose|k2: int| 0 <= k2 < n && (#[trigger] sortedv[k2]).1 == vx;
            assert(0 <= kv < n && sortedv[kv].1 == vx);
            assert(ctx.rtol@[vx as int] == spec_rank_loc(kv, fl as int));
            if kv < fl as int {
                assert(spec_starter_free()[kv] == free@[kv]);
                assert(spec_starter_free().contains(free@[kv]));
            }
        }
    }
    ctx
}

} // verus!
