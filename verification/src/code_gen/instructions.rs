//! Spill-aware instruction emission from the allocated op sequence.
//!
//! `spec_emit_op` is the model of per-op emission: every operand or
//! destination whose location is a stack slot borrows a register from
//! the scratch pool, a load from the slot is emitted, the scratch
//! register stands in for the operand, and after the op's instructions a
//! store back to the slot returns the register to the pool. Borrow and
//! return come in strict matching pairs, so the pool holds the same
//! registers after every op as before it.

use vstd::prelude::*;
use vstd::seq_lib::group_to_multiset_ensures;

use crate::code_gen::Ctx;
use crate::code_gen::local_alloc::Memory;
use crate::code_gen::local_alloc::Register;
use crate::error::CompileError;
use crate::ir::ir_types::IRBlock;
use crate::ir::ir_types::IROp;
use crate::ir::ir_types::IRValue;
use crate::ir::ir_types::IReg;
use crate::ir::ir_types::SpecIROp;
use crate::ir::ir_types::SpecIRValue;
use crate::ir::ir_types::spec_op_operands;
use crate::ir::ir_types::spec_ops_wf;

verus! {

broadcast use group_to_multiset_ensures;

/// One target instruction record.
#[derive(Debug, PartialEq, Eq, Clone, Copy, Structural)]
pub enum Instr {
    Push(Register),
    Add(Register, Register),
    AddImm(Register, i64),
    Pop(Register),
    Mov(Memory, Memory),
    MovImm(Memory, u64),
}

/// Borrows a register from the scratch pool, newest first.
fn alloc_scratch(scratches: &mut Vec<Register>) -> (r: Option<Register>)
    ensures
        match r {
            Some(reg) => old(scratches)@.len() > 0 && reg == old(scratches)@.last()
                && final(scratches)@ == old(scratches)@.drop_last(),
            None => old(scratches)@.len() == 0 && final(scratches)@ == old(scratches)@,
        },
{
    scratches.pop()
}

/// Returns a borrowed register to the scratch pool.
fn free_scratch(reg: Register, scratches: &mut Vec<Register>)
    ensures
        final(scratches)@ == old(scratches)@.push(reg),
{
    scratches.push(reg);
}

/// The model of fetching one operand into a register: the effective
/// register, the pool afterwards, and the load emitted, if any.
pub open spec fn spec_fetch_reg(rtol: Seq<Memory>, scr: Seq<Register>, v: int) -> (
    Register,
    Seq<Register>,
    Seq<Instr>,
) {
    match rtol[v] {
        Memory::Register(r0) => (r0, scr, Seq::empty()),
        Memory::Stack(sl) => (
            scr.last(),
            scr.drop_last(),
            seq![Instr::Mov(Memory::Register(scr.last()), Memory::Stack(sl))],
        ),
    }
}

/// The model of releasing an operand's effective register: the pool
/// afterwards and the store back to the slot, if any.
pub open spec fn spec_store_back(rtol: Seq<Memory>, scr: Seq<Register>, v: int, pr: Register) -> (
    Seq<Register>,
    Seq<Instr>,
) {
    match rtol[v] {
        Memory::Register(_) => (scr, Seq::empty()),
        Memory::Stack(sl) => (
            scr.push(pr),
            seq![Instr::Mov(Memory::Stack(sl), Memory::Register(pr))],
        ),
    }
}

/// The instructions of one `Add` op: fetch both operands, add, release
/// the right operand, fetch the destination, move the sum into it,
/// release destination and left operand.
pub open spec fn spec_emit_add(rtol: Seq<Memory>, scr0: Seq<Register>, dst: int, a: int, b: int) -> (
    Seq<Register>,
    Seq<Instr>,
) {
    let (r1, scr1, is1) = spec_fetch_reg(rtol, scr0, a);
    let (r2, scr2, is2) = spec_fetch_reg(rtol, scr1, b);
    let is3 = seq![Instr::Add(r1, r2)];
    let (scr3, is4) = spec_store_back(rtol, scr2, b, r2);
    let (r3, scr4, is5) = spec_fetch_reg(rtol, scr3, dst);
    let is6 = seq![Instr::Mov(Memory::Register(r3), Memory::Register(r1))];
    let (scr5, is7) = spec_store_back(rtol, scr4, dst, r3);
    let (scr6, is8) = spec_store_back(rtol, scr5, a, r1);
    (scr6, is1 + is2 + is3 + is4 + is5 + is6 + is7 + is8)
}

/// The instructions of one register-to-register move (`Mov` and
/// `Store` ops emit the same shape).
pub open spec fn spec_emit_mov(rtol: Seq<Memory>, scr0: Seq<Register>, dst: int, src: int) -> (
    Seq<Register>,
    Seq<Instr>,
) {
    let (r1, scr1, is1) = spec_fetch_reg(rtol, scr0, dst);
    let (r2, scr2, is2) = spec_fetch_reg(rtol, scr1, src);
    let is3 = seq![Instr::Mov(Memory::Register(r1), Memory::Register(r2))];
    let (scr3, is4) = spec_store_back(rtol, scr2, dst, r1);
    let (scr4, is5) = spec_store_back(rtol, scr3, src, r2);
    (scr4, is1 + is2 + is3 + is4 + is5)
}

/// The instructions of one immediate load.
pub open spec fn spec_emit_load(rtol: Seq<Memory>, scr0: Seq<Register>, dst: int, val: u64) -> (
    Seq<Register>,
    Seq<Instr>,
) {
    let (r1, scr1, is1) = spec_fetch_reg(rtol, scr0, dst);
    let is2 = seq![Instr::MovImm(Memory::Register(r1), val)];
    let (scr2, is3) = spec_store_back(rtol, scr1, dst, r1);
    (scr2, is1 + is2 + is3)
}

/// The op kinds this emitter has an encoding for.
pub open spec fn spec_op_supported(op: SpecIROp) -> bool {
    match op {
        SpecIROp::Load(SpecIRValue::U64(_)) => true,
        SpecIROp::Mov(_, _) => true,
        SpecIROp::Store(_, _) => true,
        SpecIROp::Add(_, _) => true,
        _ => false,
    }
}

/// The pool and instructions after emitting the op at position `i`.
pub open spec fn spec_emit_op(rtol: Seq<Memory>, scr: Seq<Register>, i: int, op: SpecIROp) -> (
    Seq<Register>,
    Seq<Instr>,
) {
    match op {
        SpecIROp::Load(SpecIRValue::U64(n)) => spec_emit_load(rtol, scr, i, n),
        SpecIROp::Mov(g, _) => spec_emit_mov(rtol, scr, i, g as int),
        SpecIROp::Store(g, _) => spec_emit_mov(rtol, scr, i, g as int),
        SpecIROp::Add(a, b) => spec_emit_add(rtol, scr, i, a as int, b as int),
        _ => (scr, Seq::empty()),
    }
}

/// Loads the operand's value into its register, borrowing a scratch
/// register and emitting the slot load when it lives on the stack.
/// `None` means the scratch pool is exhausted.
fn get_to_reg(reg: IReg, instrs: &mut Vec<Instr>, ctx: &mut Ctx) -> (r: Option<Register>)
    requires
        reg < old(ctx).rtol@.len(),
    ensures
        final(ctx).rtol == old(ctx).rtol,
        final(ctx).stack_size == old(ctx).stack_size,
        match r {
            Some(pr) => ({
                let (pr0, scr1, is1) = spec_fetch_reg(old(ctx).rtol@, old(ctx).scratches@, reg as int);
                pr == pr0 && final(ctx).scratches@ == scr1 && final(instrs)@ == old(instrs)@ + is1
            }),
            None => old(ctx).rtol@[reg as int] is Stack && old(ctx).scratches@.len() == 0
                && final(ctx).scratches@ == old(ctx).scratches@
                && final(instrs)@ == old(instrs)@,
        },
        old(ctx).scratches@.len() > 0 ==> r is Some,
        old(ctx).rtol@[reg as int] is Register ==> r is Some,
        r is Some && old(ctx).rtol@[reg as int] is Stack ==> old(ctx).scratches@.len() > 0,
{
    let mem = ctx.rtol[reg];
    match mem {
        Memory::Stack(_place) => {
            match alloc_scratch(&mut ctx.scratches) {
                None => None,
                Some(r1) => {
                    instrs.push(Instr::Mov(Memory::Register(r1), mem));
                    proof {
                        assert(instrs@ =~= old(instrs)@ + seq![
                            Instr::Mov(
                                Memory::Register(old(ctx).scratches@.last()),
                                old(ctx).rtol@[reg as int],
                            ),
                        ]);
                    }
                    Some(r1)
                },
            }
        },
        Memory::Register(r0) => {
            proof {
                assert(instrs@ =~= old(instrs)@ + Seq::<Instr>::empty());
            }
            Some(r0)
        },
    }
}

/// Writes the operand's register back to its stack slot, if it has one,
/// and returns the borrowed scratch register to the pool.
fn get_out_of_reg(vreg: IReg, register: Register, instrs: &mut Vec<Instr>, ctx: &mut Ctx)
    requires
        vreg < old(ctx).rtol@.len(),
    ensures
        final(ctx).rtol == old(ctx).rtol,
        final(ctx).stack_size == old(ctx).stack_size,
        ({
            let (scr1, is1) = spec_store_back(
                old(ctx).rtol@,
                old(ctx).scratches@,
                vreg as int,
                register,
            );
            final(ctx).scratches@ == scr1 && final(instrs)@ == old(instrs)@ + is1
        }),
{
    let mem = ctx.rtol[vreg];
    match mem {
        Memory::Stack(_place) => {
            instrs.push(Instr::Mov(mem, Memory::Register(register)));
            free_scratch(register, &mut ctx.scratches);
            proof {
                assert(instrs@ =~= old(instrs)@ + seq![
                    Instr::Mov(old(ctx).rtol@[vreg as int], Memory::Register(register)),
                ]);
            }
        },
        Memory::Register(_) => {
            proof {
                assert(instrs@ =~= old(instrs)@ + Seq::<Instr>::empty());
            }
        },
    }
}

/// Emits one `Add` op. With two stack-resident operands the two loads
/// use two distinct scratch registers concurrently; every borrowed
/// register is back in the pool when the op's emission ends.
#[verifier::rlimit(60)]
pub fn add_to_asm(
    receiver: IReg,
    vr1: IReg,
    vr2: IReg,
    instrs: &mut Vec<Instr>,
    ctx: &mut Ctx,
) -> (r: Result<(), CompileError>)
    requires
        receiver < old(ctx).rtol@.len(),
        vr1 < old(ctx).rtol@.len(),
        vr2 < old(ctx).rtol@.len(),
    ensures
        final(ctx).rtol == old(ctx).rtol,
        final(ctx).stack_size == old(ctx).stack_size,
        match r {
            Ok(_) => ({
                let (scr_out, emitted) = spec_emit_add(
                    old(ctx).rtol@,
                    old(ctx).scratches@,
                    receiver as int,
                    vr1 as int,
                    vr2 as int,
                );
                final(ctx).scratches@ == scr_out && final(instrs)@ == old(instrs)@ + emitted
                    && final(ctx).scratches@.to_multiset() == old(ctx).scratches@.to_multiset()
            }),
            Err(e) => e == (CompileError::OutOfScratchRegisters { op_index: receiver })
                && old(ctx).scratches@.len() < 2,
        },
        old(ctx).scratches@.len() >= 2 ==> r is Ok,
{
    let ghost rtolv = old(ctx).rtol@;
    let ghost scr0 = old(ctx).scratches@;
    let ghost instrs0 = old(instrs)@;
    let r1 = match get_to_reg(vr1, instrs, ctx) {
        Some(x) => x,
        None => {
            return Err(CompileError::OutOfScratchRegisters { op_index: receiver });
        },
    };
    let ghost scr1 = ctx.scratches@;
    let r2 = match get_to_reg(vr2, instrs, ctx) {
        Some(x) => x,
        None => {
            return Err(CompileError::OutOfScratchRegisters { op_index: receiver });
        },
    };
    let ghost scr2 = ctx.scratches@;
    instrs.push(Instr::Add(r1, r2));
    get_out_of_reg(vr2, r2, instrs, ctx);
    let ghost scr3 = ctx.scratches@;
    let r3 = match get_to_reg(receiver, instrs, ctx) {
        Some(x) => x,
        None => {
            return Err(CompileError::OutOfScratchRegisters { op_index: receiver });
        },
    };
    instrs.push(Instr::Mov(Memory::Register(r3), Memory::Register(r1)));
    get_out_of_reg(receiver, r3, instrs, ctx);
    get_out_of_reg(vr1, r1, instrs, ctx);
    proof {
        let (sr1, sscr1, sis1) = spec_fetch_reg(rtolv, scr0, vr1 as int);
        let (sr2, sscr2, sis2) = spec_fetch_reg(rtolv, sscr1, vr2 as int);
        let sis3 = seq![Instr::Add(sr1, sr2)];
        let (sscr3, sis4) = spec_store_back(rtolv, sscr2, vr2 as int, sr2);
        let (sr3, sscr4, sis5) = spec_fetch_reg(rtolv, sscr3, receiver as int);
        let sis6 = seq![Instr::Mov(Memory::Register(sr3), Memory::Register(sr1))];
        let (sscr5, sis7) = spec_store_back(rtolv, sscr4, receiver as int, sr3);
        let (sscr6, sis8) = spec_store_back(rtolv, sscr5, vr1 as int, sr1);
        assert(instrs@ =~= instrs0 + (sis1 + sis2 + sis3 + sis4 + sis5 + sis6 + sis7 + sis8));
        if rtolv[vr1 as int] is Stack {
            assert(scr0 =~= sscr1.push(sr1));
        }
        if rtolv[vr2 as int] is Stack {
            assert(sscr1 =~= sscr2.push(sr2));
        }
        if rtolv[receiver as int] is Stack {
            assert(sscr3 =~= sscr4.push(sr3));
        }
        assert(ctx.scratches@.to_multiset() =~= scr0.to_multiset());
    }
    Ok(())
}

/// Emits one register-to-register move; `Store` and `Move` ops both
/// take this shape, their metadata being dump-only.
pub fn mov_to_asm(receiver: IReg, giver: IReg, instrs: &mut Vec<Instr>, ctx: &mut Ctx) -> (r:
    Result<(), CompileError>)
    requires
        receiver < old(ctx).rtol@.len(),
        giver < old(ctx).rtol@.len(),
    ensures
        final(ctx).rtol == old(ctx).rtol,
        final(ctx).stack_size == old(ctx).stack_size,
        match r {
            Ok(_) => ({
                let (scr_out, emitted) = spec_emit_mov(
                    old(ctx).rtol@,
                    old(ctx).scratches@,
                    receiver as int,
                    giver as int,
                );
                final(ctx).scratches@ == scr_out && final(instrs)@ == old(instrs)@ + emitted
                    && final(ctx).scratches@.to_multiset() == old(ctx).scratches@.to_multiset()
            }),
            Err(e) => e == (CompileError::OutOfScratchRegisters { op_index: receiver })
                && old(ctx).scratches@.len() < 2,
        },
        old(ctx).scratches@.len() >= 2 ==> r is Ok,
{
    let ghost rtolv = old(ctx).rtol@;
    let ghost scr0 = old(ctx).scratches@;
    let ghost instrs0 = old(instrs)@;
    let r1 = match get_to_reg(receiver, instrs, ctx) {
        Some(x) => x,
        None => {
            return Err(CompileError::OutOfScratchRegisters { op_index: receiver });
        },
    };
    let r2 = match get_to_reg(giver, instrs, ctx) {
        Some(x) => x,
        None => {
            return Err(CompileError::OutOfScratchRegisters { op_index: receiver });
        },
    };
    instrs.push(Instr::Mov(Memory::Register(r1), Memory::Register(r2)));
    get_out_of_reg(receiver, r1, instrs, ctx);
    get_out_of_reg(giver, r2, instrs, ctx);
    proof {
        let (sr1, sscr1, sis1) = spec_fetch_reg(rtolv, scr0, receiver as int);
        let (sr2, sscr2, sis2) = spec_fetch_reg(rtolv, sscr1, giver as int);
        let sis3 = seq![Instr::Mov(Memory::Register(sr1), Memory::Register(sr2))];
        let (sscr3, sis4) = spec_store_back(rtolv, sscr2, receiver as int, sr1);
        let (sscr4, sis5) = spec_store_back(rtolv, sscr3, giver as int, sr2);
        assert(instrs@ =~= instrs0 + (sis1 + sis2 + sis3 + sis4 + sis5));
        if rtolv[receiver as int] is Stack {
            assert(scr0 =~= sscr1.push(sr1));
        }
        if rtolv[giver as int] is Stack {
            assert(sscr1 =~= sscr2.push(sr2));
        }
        assert(ctx.scratches@.to_multiset() =~= scr0.to_multiset());
    }
    Ok(())
}

/// Emits one immediate load.
pub fn load_to_asm(reg: IReg, val: u64, instrs: &mut Vec<Instr>, ctx: &mut Ctx) -> (r: Result<
    (),
    CompileError,
>)
    requires
        reg < old(ctx).rtol@.len(),
    ensures
        final(ctx).rtol == old(ctx).rtol,
        final(ctx).stack_size == old(ctx).stack_size,
        match r {
            Ok(_) => ({
                let (scr_out, emitted) = spec_emit_load(
                    old(ctx).rtol@,
                    old(ctx).scratches@,
                    reg as int,
                    val,
                );
                final(ctx).scratches@ == scr_out && final(instrs)@ == old(instrs)@ + emitted
                    && final(ctx).scratches@.to_multiset() == old(ctx).scratches@.to_multiset()
            }),
            Err(e) => e == (CompileError::OutOfScratchRegisters { op_index: reg })
                && old(ctx).scratches@.len() < 2,
        },
        old(ctx).scratches@.len() >= 1 ==> r is Ok,
{
    let ghost rtolv = old(ctx).rtol@;
    let ghost scr0 = old(ctx).scratches@;
    let ghost instrs0 = old(instrs)@;
    let r1 = match get_to_reg(reg, instrs, ctx) {
        Some(x) => x,
        None => {
            return Err(CompileError::OutOfScratchRegisters { op_index: reg });
        },
    };
    instrs.push(load_to_mem(val, Memory::Register(r1)));
    get_out_of_reg(reg, r1, instrs, ctx);
    proof {
        let (sr1, sscr1, sis1) = spec_fetch_reg(rtolv, scr0, reg as int);
        let sis2 = seq![Instr::MovImm(Memory::Register(sr1), val)];
        let (sscr2, sis3) = spec_store_back(rtolv, sscr1, reg as int, sr1);
        assert(instrs@ =~= instrs0 + (sis1 + sis2 + sis3));
        if rtolv[reg as int] is Stack {
            assert(scr0 =~= sscr1.push(sr1));
        }
        assert(ctx.scratches@.to_multiset() =~= scr0.to_multiset());
    }
    Ok(())
}

/// Wraps an immediate value as a move-immediate into the given place.
pub fn load_to_mem(val: u64, mem: Memory) -> (r: Instr)
    ensures
        r == Instr::MovImm(mem, val),
{
    Instr::MovImm(mem, val)
}

/// Emits the instructions of the op at position `vreg`. `Sub`, `Mul`
/// and `Call` ops have no encoding in this emitter and report
/// `UnsupportedConstruct`.
pub fn op_to_asm(vreg: IReg, op: &IROp, instrs: &mut Vec<Instr>, ctx: &mut Ctx) -> (r: Result<
    (),
    CompileError,
>)
    requires
        vreg < old(ctx).rtol@.len(),
        forall|j: int|
            0 <= j < spec_op_operands(op.deep_view()).len()
                ==> #[trigger] spec_op_operands(op.deep_view())[j] < old(ctx).rtol@.len(),
    ensures
        final(ctx).rtol == old(ctx).rtol,
        final(ctx).stack_size == old(ctx).stack_size,
        match r {
            Ok(_) => spec_op_supported(op.deep_view()) && ({
                let (scr_out, emitted) = spec_emit_op(
                    old(ctx).rtol@,
                    old(ctx).scratches@,
                    vreg as int,
                    op.deep_view(),
                );
                final(ctx).scratches@ == scr_out && final(instrs)@ == old(instrs)@ + emitted
                    && final(ctx).scratches@.to_multiset() == old(ctx).scratches@.to_multiset()
            }),
            Err(e) => match e {
                CompileError::UnsupportedConstruct => !spec_op_supported(op.deep_view())
                    && final(ctx).scratches@ == old(ctx).scratches@
                    && final(instrs)@ == old(instrs)@,
                CompileError::OutOfScratchRegisters { op_index } => op_index == vreg
                    && old(ctx).scratches@.len() < 2,
                _ => false,
            },
        },
        old(ctx).scratches@.len() >= 2 && spec_op_supported(op.deep_view()) ==> r is Ok,
{
    match op {
        IROp::Load(IRValue::U64(n)) => load_to_asm(vreg, *n, instrs, ctx),
        IROp::Store(giver, _) => {
            proof {
                assert(spec_op_operands(op.deep_view()) == seq![*giver]);
                assert(spec_op_operands(op.deep_view())[0] == *giver);
            }
            mov_to_asm(vreg, *giver, instrs, ctx)
        },
        IROp::Mov(giver, _) => {
            proof {
                assert(spec_op_operands(op.deep_view()) == seq![*giver]);
                assert(spec_op_operands(op.deep_view())[0] == *giver);
            }
            mov_to_asm(vreg, *giver, instrs, ctx)
        },
        IROp::Add(a, b) => {
            proof {
                assert(spec_op_operands(op.deep_view()) == seq![*a, *b]);
                assert(spec_op_operands(op.deep_view())[0] == *a);
                assert(spec_op_operands(op.deep_view())[1] == *b);
            }
            add_to_asm(vreg, *a, *b, instrs, ctx)
        },
        _ => Err(CompileError::UnsupportedConstruct),
    }
}

/// Whether the emitter supports every op of the sequence.
pub open spec fn spec_all_supported(ops: Seq<SpecIROp>) -> bool {
    forall|i: int| 0 <= i < ops.len() ==> spec_op_supported(#[trigger] ops[i])
}

/// The stack-pointer adjustment reserving the block's spill slots,
/// emitted before the first instruction when any slot was assigned.
pub open spec fn spec_prologue(stack_size: usize) -> Seq<Instr> {
    if stack_size > 0 {
        seq![Instr::AddImm(Register::RSP, (0 - stack_size * 8) as i64)]
    } else {
        Seq::empty()
    }
}

/// The pool and instruction stream after emitting the ops from
/// position `k` on.
pub open spec fn spec_emit_ops(
    rtol: Seq<Memory>,
    scr: Seq<Register>,
    ops: Seq<SpecIROp>,
    k: int,
) -> (Seq<Register>, Seq<Instr>)
    decreases ops.len() - k when 0 <= k <= ops.len()
{
    if k >= ops.len() {
        (scr, Seq::empty())
    } else {
        let (scr1, is1) = spec_emit_op(rtol, scr, k, ops[k]);
        let (scr2, is2) = spec_emit_ops(rtol, scr1, ops, k + 1);
        (scr2, is1 + is2)
    }
}

/// Emits the whole block: the prologue reserving `stack_size` slots of
/// eight bytes, then every op's instructions in order. On success the
/// stream is exactly the prologue followed by `spec_emit_ops`, and the
/// scratch pool holds the same registers as before.
pub fn block_to_asm(block: &IRBlock, ctx: &mut Ctx) -> (r: Result<Vec<Instr>, CompileError>)
    requires
        old(ctx).rtol@.len() == block.ctx.ops@.len(),
        spec_ops_wf(block.ctx.ops.deep_view()),
        old(ctx).stack_size * 8 <= i64::MAX,
    ensures
        final(ctx).rtol == old(ctx).rtol,
        final(ctx).stack_size == old(ctx).stack_size,
        match r {
            Ok(instrs) => ({
                let (scr_out, emitted) = spec_emit_ops(
                    old(ctx).rtol@,
                    old(ctx).scratches@,
                    block.ctx.ops.deep_view(),
                    0,
                );
                final(ctx).scratches@ == scr_out && instrs@ == spec_prologue(old(ctx).stack_size)
                    + emitted && final(ctx).scratches@.to_multiset()
                    == old(ctx).scratches@.to_multiset()
            }),
            Err(e) => match e {
                CompileError::UnsupportedConstruct => !spec_all_supported(
                    block.ctx.ops.deep_view(),
                ),
                CompileError::OutOfScratchRegisters { op_index } => op_index
                    < block.ctx.ops@.len() && old(ctx).scratches@.len() < 2,
                _ => false,
            },
        },
        old(ctx).scratches@.len() >= 2 && spec_all_supported(block.ctx.ops.deep_view()) ==> r is Ok,
{
    let ghost opsd = block.ctx.ops.deep_view();
    let ghost rtolv = old(ctx).rtol@;
    let ghost scr0 = old(ctx).scratches@;
    let mut instrs: Vec<Instr> = Vec::new();
    if ctx.stack_size > 0 {
        let bytes: i64 = (ctx.stack_size as i64) * 8;
        instrs.push(Instr::AddImm(Register::RSP, -bytes));
    }
    proof {
        assert(instrs@ =~= spec_prologue(old(ctx).stack_size));
    }
    let ghost plen = instrs@.len() as int;
    let n = block.ctx.ops.len();
    let mut i: usize = 0;
    while i < n
        invariant
            i <= n,
            n == opsd.len(),
            opsd == block.ctx.ops.deep_view(),
            rtolv == old(ctx).rtol@,
            scr0 == old(ctx).scratches@,
            ctx.rtol == old(ctx).rtol,
            ctx.stack_size == old(ctx).stack_size,
            rtolv.len() == n,
            spec_ops_wf(opsd),
            ctx.scratches@.to_multiset() == scr0.to_multiset(),
            plen == spec_prologue(old(ctx).stack_size).len(),
            instrs@.len() >= plen,
            instrs@.take(plen) == spec_prologue(old(ctx).stack_size),
            ({
                let (scr_f, em_f) = spec_emit_ops(rtolv, ctx.scratches@, opsd, i as int);
                let (scr_t, em_t) = spec_emit_ops(rtolv, scr0, opsd, 0);
                scr_t == scr_f && em_t == instrs@.skip(plen) + em_f
            }),
        decreases n - i,
    {
        proof {
            assert forall|j: int|
                0 <= j < spec_op_operands(opsd[i as int]).len() implies #[trigger] spec_op_operands(
                opsd[i as int],
            )[j] < rtolv.len() by {
                assert(spec_op_operands(opsd[i as int])[j] < i as int);
            }
            vstd::seq_lib::lemma_multiset_commutative(Seq::<Register>::empty(), ctx.scratches@);
        }
        let ghost scr_i = ctx.scratches@;
        let ghost em_done = instrs@.skip(plen);
        match op_to_asm(i, &block.ctx.ops[i], &mut instrs, ctx) {
            Ok(_) => {
                proof {
                    let (scr1, is1) = spec_emit_op(rtolv, scr_i, i as int, opsd[i as int]);
                    let (scr_f2, em_f2) = spec_emit_ops(rtolv, scr1, opsd, i as int + 1);
                    assert(spec_emit_ops(rtolv, scr_i, opsd, i as int) == (
                        scr_f2,
                        is1 + em_f2,
                    ));
                    assert(instrs@.skip(plen) =~= em_done + is1);
                    assert((em_done + is1) + em_f2 =~= em_done + (is1 + em_f2));
                    assert(instrs@.take(plen) =~= spec_prologue(old(ctx).stack_size));
                }
                i = i + 1;
            },
            Err(e) => {
                proof {
                    scr_i.to_multiset_ensures();
                    scr0.to_multiset_ensures();
                    assert(scr_i.to_multiset() == scr0.to_multiset());
                    assert(scr_i.len() == scr0.len());
                    if !spec_op_supported(opsd[i as int]) {
                        assert(!spec_all_supported(opsd));
                    }
                    if spec_all_supported(opsd) && scr0.len() >= 2 {
                        assert(spec_op_supported(opsd[i as int]));
                        assert(false);
                    }
                }
                return Err(e);
            },
        }
    }
    proof {
        let (scr_f, em_f) = spec_emit_ops(rtolv, ctx.scratches@, opsd, n as int);
        assert(em_f =~= Seq::<Instr>::empty());
        assert(instrs@.skip(plen) + Seq::<Instr>::empty() =~= instrs@.skip(plen));
        assert(instrs@ =~= instrs@.take(plen) + instrs@.skip(plen));
    }
    Ok(instrs)
}

/// The spill-correctness law: when an op's two operands both live on
/// the stack, the two slot loads borrow two distinct scratch registers
/// concurrently.
pub proof fn lemma_spill_scratches_distinct(
    rtol: Seq<Memory>,
    scr: Seq<Register>,
    a: int,
    b: int,
)
    requires
        scr.no_duplicates(),
        scr.len() >= 2,
        0 <= a < rtol.len(),
        0 <= b < rtol.len(),
        rtol[a] is Stack,
        rtol[b] is Stack,
    ensures
        ({
            let (r1, scr1, is1) = spec_fetch_reg(rtol, scr, a);
            let (r2, scr2, is2) = spec_fetch_reg(rtol, scr1, b);
            r1 != r2
        }),
{
    let (r1, scr1, is1) = spec_fetch_reg(rtol, scr, a);
    let (r2, scr2, is2) = spec_fetch_reg(rtol, scr1, b);
    assert(r1 == scr[scr.len() - 1]);
    assert(scr1 =~= scr.take(scr.len() - 1));
    assert(r2 == scr[scr.len() - 2]);
}

} // verus!
