use tinycomp::code_gen::Ctx;
use tinycomp::code_gen::instructions::Instr;
use tinycomp::code_gen::instructions::block_to_asm;
use tinycomp::code_gen::local_alloc::Memory;
use tinycomp::code_gen::local_alloc::Register;
use tinycomp::code_gen::local_alloc::top_down_init;
use tinycomp::error::CompileError;
use tinycomp::ir::Expr;
use tinycomp::ir::Func;
use tinycomp::ir::Stmt;
use tinycomp::ir::fn_to_ir;
use tinycomp::ir::ir_types::IRBlock;
use tinycomp::ir::ir_types::IROp;
use tinycomp::ir::ir_types::IRValue;
use tinycomp::ir::ir_types::LocalCtx;

fn block_of(ops: Vec<IROp>) -> IRBlock {
    let mut ctx = LocalCtx::new();
    ctx.ops = ops;
    IRBlock {
        label: "blk".to_string(),
        params: Vec::new(),
        ctx,
    }
}

#[test]
fn allocation_partitions_all_vregs() {
    // Six vregs, all usage one except the last: all fit in registers, in
    // pool order; no stack slots; the four unneeded free registers join
    // the scratch pool.
    let ops = vec![
        IROp::Load(IRValue::U64(5)),
        IROp::Store(0, "store into a".to_string()),
        IROp::Mov(1, "moved from a".to_string()),
        IROp::Load(IRValue::U64(2)),
        IROp::Add(2, 3),
        IROp::Store(4, "store into b".to_string()),
    ];
    let block = block_of(ops);
    let ctx = top_down_init(&block);
    assert_eq!(
        ctx.rtol,
        vec![
            Memory::Register(Register::RBX),
            Memory::Register(Register::RCX),
            Memory::Register(Register::RSI),
            Memory::Register(Register::R8),
            Memory::Register(Register::R9),
            Memory::Register(Register::R10),
        ]
    );
    assert_eq!(ctx.stack_size, 0);
    assert_eq!(
        ctx.scratches,
        vec![
            Register::RAX,
            Register::RDX,
            Register::RDI,
            Register::R11,
            Register::R12,
            Register::R14,
            Register::R15,
        ]
    );
}

#[test]
fn allocation_prefers_high_usage() {
    // vreg 1 is used three times, vreg 0 once: vreg 1 outranks it.
    let ops = vec![
        IROp::Load(IRValue::U64(1)),
        IROp::Load(IRValue::U64(2)),
        IROp::Add(0, 1),
        IROp::Mul(1, 1),
    ];
    let block = block_of(ops);
    let ctx = top_down_init(&block);
    assert_eq!(ctx.rtol[1], Memory::Register(Register::RBX));
    assert_eq!(ctx.rtol[0], Memory::Register(Register::RCX));
    assert_eq!(ctx.rtol[2], Memory::Register(Register::RSI));
    assert_eq!(ctx.rtol[3], Memory::Register(Register::R8));
}

#[test]
fn allocation_spills_beyond_the_pool() {
    // Twelve vregs of equal usage: the pool of ten runs out and the two
    // lowest-ranked vregs get stack slots in rank order.
    let mut ops = Vec::new();
    for k in 0..12u64 {
        ops.push(IROp::Load(IRValue::U64(k)));
    }
    let block = block_of(ops);
    let ctx = top_down_init(&block);
    assert_eq!(ctx.stack_size, 2);
    assert_eq!(ctx.rtol[9], Memory::Register(Register::R15));
    assert_eq!(ctx.rtol[10], Memory::Stack(0));
    assert_eq!(ctx.rtol[11], Memory::Stack(1));
    assert_eq!(
        ctx.scratches,
        vec![Register::RAX, Register::RDX, Register::RDI]
    );
}

#[test]
fn emission_register_resident() {
    let block = block_of(vec![IROp::Load(IRValue::U64(7))]);
    let mut ctx = top_down_init(&block);
    let instrs = block_to_asm(&block, &mut ctx).unwrap();
    assert_eq!(
        instrs,
        vec![Instr::MovImm(Memory::Register(Register::RBX), 7)]
    );
}

#[test]
fn emission_spills_with_distinct_scratches() {
    // All three vregs on the stack: the Add borrows two distinct scratch
    // registers at once, and the pool holds the same registers afterwards.
    let block = block_of(vec![
        IROp::Load(IRValue::U64(5)),
        IROp::Load(IRValue::U64(6)),
        IROp::Add(0, 1),
    ]);
    let mut ctx = Ctx {
        rtol: vec![Memory::Stack(0), Memory::Stack(1), Memory::Stack(2)],
        scratches: vec![Register::RAX, Register::RDX, Register::RDI],
        stack_size: 3,
    };
    let before = ctx.scratches.clone();
    let instrs = block_to_asm(&block, &mut ctx).unwrap();
    assert_eq!(ctx.scratches, before);
    assert_eq!(
        instrs,
        vec![
            Instr::AddImm(Register::RSP, -24),
            // ld r0, 5
            Instr::Mov(Memory::Register(Register::RDI), Memory::Stack(0)),
            Instr::MovImm(Memory::Register(Register::RDI), 5),
            Instr::Mov(Memory::Stack(0), Memory::Register(Register::RDI)),
            // ld r1, 6
            Instr::Mov(Memory::Register(Register::RDI), Memory::Stack(1)),
            Instr::MovImm(Memory::Register(Register::RDI), 6),
            Instr::Mov(Memory::Stack(1), Memory::Register(Register::RDI)),
            // add r2, r0, r1: two concurrent scratches RDI and RDX
            Instr::Mov(Memory::Register(Register::RDI), Memory::Stack(0)),
            Instr::Mov(Memory::Register(Register::RDX), Memory::Stack(1)),
            Instr::Add(Register::RDI, Register::RDX),
            Instr::Mov(Memory::Stack(1), Memory::Register(Register::RDX)),
            Instr::Mov(Memory::Register(Register::RDX), Memory::Stack(2)),
            Instr::Mov(Memory::Register(Register::RDX), Memory::Register(Register::RDI)),
            Instr::Mov(Memory::Stack(2), Memory::Register(Register::RDX)),
            Instr::Mov(Memory::Stack(0), Memory::Register(Register::RDI)),
        ]
    );
}

#[test]
fn emission_rejects_sub_and_mul() {
    let block = block_of(vec![
        IROp::Load(IRValue::U64(1)),
        IROp::Load(IRValue::U64(2)),
        IROp::Sub(0, 1),
    ]);
    let mut ctx = top_down_init(&block);
    assert_eq!(
        block_to_asm(&block, &mut ctx),
        Err(CompileError::UnsupportedConstruct)
    );
}

#[test]
fn emission_runs_out_of_scratches() {
    let block = block_of(vec![IROp::Load(IRValue::U64(1))]);
    let mut ctx = Ctx {
        rtol: vec![Memory::Stack(0)],
        scratches: Vec::new(),
        stack_size: 1,
    };
    assert_eq!(
        block_to_asm(&block, &mut ctx),
        Err(CompileError::OutOfScratchRegisters { op_index: 0 })
    );
}

#[test]
fn pipeline_lowers_then_allocates_and_emits() {
    let func = Func {
        name: String::from("main"),
        ttype: String::from("int"),
        params: Vec::new(),
        body: Vec::from([
            Stmt::Declare("a".to_string(), Expr::Num(5)),
            Stmt::Declare(
                "b".to_string(),
                Expr::Addition(
                    Box::new(Expr::Name("a".to_string())),
                    Box::new(Expr::Num(2)),
                ),
            ),
        ]),
    };
    let block = fn_to_ir(func).unwrap();
    let mut ctx = top_down_init(&block);
    let instrs = block_to_asm(&block, &mut ctx).unwrap();
    // Six vregs, all register-resident: no prologue, no spill traffic.
    assert_eq!(
        instrs,
        vec![
            Instr::MovImm(Memory::Register(Register::RBX), 5),
            Instr::Mov(
                Memory::Register(Register::RCX),
                Memory::Register(Register::RBX)
            ),
            Instr::Mov(
                Memory::Register(Register::RSI),
                Memory::Register(Register::RCX)
            ),
            Instr::MovImm(Memory::Register(Register::R8), 2),
            Instr::Add(Register::RSI, Register::R8),
            Instr::Mov(
                Memory::Register(Register::R9),
                Memory::Register(Register::RSI)
            ),
            Instr::Mov(
                Memory::Register(Register::R10),
                Memory::Register(Register::R9)
            ),
        ]
    );
}
