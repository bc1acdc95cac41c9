//! IR lowering: expression trees and statements to the dense
//! virtual-register op sequence.
//!
//! `spec_lower_expr`, `spec_lower_stmt` and `spec_lower_body` are the
//! functional model: every construct appends its ops to the sequence and
//! the vreg it yields is the index of the last op appended. Operands are
//! lowered left to right; that order is part of the contract. A name is
//! resolved through the binding table to the vreg of its most recent
//! `Store`; an unbound name is a fatal `UnboundVariable`; control flow is
//! a fatal `UnsupportedConstruct`.

pub mod ir_types;

use vstd::prelude::*;
use vstd::string::StringExecFns;

use crate::error::CompileError;
use ir_types::IRBlock;
use ir_types::IROp;
use ir_types::IRValue;
use ir_types::IReg;
use ir_types::LocalCtx;
use ir_types::SpecIROp;
use ir_types::SpecIRValue;
use ir_types::spec_op_operands;
use ir_types::spec_ops_wf;
use ir_types::spec_total_operands;

verus! {

/// The name of a source-level type; carried through unchecked.
pub type Type = String;

/// An arithmetic expression.
#[derive(Debug)]
pub enum Expr {
    Num(u64),
    Name(String),
    Addition(Box<Expr>, Box<Expr>),
    Sub(Box<Expr>, Box<Expr>),
    Mul(Box<Expr>, Box<Expr>),
    FuncCall(String, Vec<Expr>),
}

/// A statement of a straight-line body.
#[derive(Debug)]
pub enum Stmt {
    Assign(String, Expr),
    Declare(String, Expr),
    For(Expr, Vec<Stmt>),
    If(Expr, Vec<Stmt>),
}

/// A source-level function: name, return type, parameters, body.
#[derive(Debug)]
pub struct Func {
    pub name: String,
    pub ttype: Type,
    pub params: Vec<(String, Type)>,
    pub body: Vec<Stmt>,
}

/// A measure for termination of lowering: the number of nodes of an
/// expression.
pub open spec fn spec_expr_size(e: Expr) -> nat
    decreases e,
{
    match e {
        Expr::Num(_) => 1,
        Expr::Name(_) => 1,
        Expr::Addition(e1, e2) => 1 + spec_expr_size(*e1) + spec_expr_size(*e2),
        Expr::Sub(e1, e2) => 1 + spec_expr_size(*e1) + spec_expr_size(*e2),
        Expr::Mul(e1, e2) => 1 + spec_expr_size(*e1) + spec_expr_size(*e2),
        Expr::FuncCall(_, args) => 1 + spec_exprs_size(args@),
    }
}

/// The joint size of a sequence of expressions.
pub open spec fn spec_exprs_size(args: Seq<Expr>) -> nat
    decreases args,
{
    if args.len() == 0 {
        0
    } else {
        1 + spec_expr_size(args[0]) + spec_exprs_size(args.subrange(1, args.len() as int))
    }
}

proof fn lemma_exprs_size_elem(args: Seq<Expr>, i: int)
    requires
        0 <= i < args.len(),
    ensures
        spec_expr_size(args[i]) < spec_exprs_size(args),
    decreases args.len(),
{
    if i > 0 {
        let rest = args.subrange(1, args.len() as int);
        lemma_exprs_size_elem(rest, i - 1);
        assert(rest[i - 1] == args[i]);
    }
}

/// What can go wrong during lowering, in the model.
pub enum SpecLowerErr {
    Unbound(Seq<char>),
    Unsupported,
}

/// The annotation a `Store` op carries.
pub open spec fn spec_store_meta(x: Seq<char>) -> Seq<char> {
    "store into "@ + x
}

/// The annotation a `Mov` op carries.
pub open spec fn spec_mov_meta(x: Seq<char>) -> Seq<char> {
    "moved from "@ + x
}

/// The model of expression lowering: the op sequence after the
/// expression's ops are appended. The vreg the expression yields is the
/// index of the last op of the result. The binding table is read, never
/// written, by expression lowering.
pub open spec fn spec_lower_expr(
    e: Expr,
    ops: Seq<SpecIROp>,
    binds: Map<Seq<char>, IReg>,
) -> Result<Seq<SpecIROp>, SpecLowerErr>
    decreases spec_expr_size(e),
{
    match e {
        Expr::Num(n) => Ok(ops.push(SpecIROp::Load(SpecIRValue::U64(n)))),
        Expr::Name(x) => if binds.contains_key(x@) {
            Ok(ops.push(SpecIROp::Mov(binds[x@], spec_mov_meta(x@))))
        } else {
            Err(SpecLowerErr::Unbound(x@))
        },
        Expr::Addition(e1, e2) => match spec_lower_expr(*e1, ops, binds) {
            Err(er) => Err(er),
            Ok(ops1) => match spec_lower_expr(*e2, ops1, binds) {
                Err(er) => Err(er),
                Ok(ops2) => Ok(
                    ops2.push(
                        SpecIROp::Add((ops1.len() - 1) as IReg, (ops2.len() - 1) as IReg),
                    ),
                ),
            },
        },
        Expr::Sub(e1, e2) => match spec_lower_expr(*e1, ops, binds) {
            Err(er) => Err(er),
            Ok(ops1) => match spec_lower_expr(*e2, ops1, binds) {
                Err(er) => Err(er),
                Ok(ops2) => Ok(
                    ops2.push(
                        SpecIROp::Sub((ops1.len() - 1) as IReg, (ops2.len() - 1) as IReg),
                    ),
                ),
            },
        },
        Expr::Mul(e1, e2) => match spec_lower_expr(*e1, ops, binds) {
            Err(er) => Err(er),
            Ok(ops1) => match spec_lower_expr(*e2, ops1, binds) {
                Err(er) => Err(er),
                Ok(ops2) => Ok(
                    ops2.push(
                        SpecIROp::Mul((ops1.len() - 1) as IReg, (ops2.len() - 1) as IReg),
                    ),
                ),
            },
        },
        Expr::FuncCall(label, args) => match spec_lower_args(args@, ops, binds) {
            Err(er) => Err(er),
            Ok((ops1, regs)) => Ok(ops1.push(SpecIROp::Call(label@, regs))),
        },
    }
}

/// The model of lowering an argument list left to right: the op
/// sequence after all arguments, and the vreg each argument yielded.
pub open spec fn spec_lower_args(
    args: Seq<Expr>,
    ops: Seq<SpecIROp>,
    binds: Map<Seq<char>, IReg>,
) -> Result<(Seq<SpecIROp>, Seq<IReg>), SpecLowerErr>
    decreases spec_exprs_size(args),
{
    if args.len() == 0 {
        Ok((ops, Seq::empty()))
    } else {
        match spec_lower_expr(args[0], ops, binds) {
            Err(er) => Err(er),
            Ok(ops1) => {
                let reg = (ops1.len() - 1) as IReg;
                match spec_lower_args(args.subrange(1, args.len() as int), ops1, binds) {
                    Err(er) => Err(er),
                    Ok((ops2, regs)) => Ok((ops2, seq![reg] + regs)),
                }
            },
        }
    }
}

/// The model of statement lowering: declaration and assignment both
/// lower the expression, append a `Store`, and rebind the name to the
/// `Store`'s own vreg; control flow is unsupported.
pub open spec fn spec_lower_stmt(
    s: Stmt,
    ops: Seq<SpecIROp>,
    binds: Map<Seq<char>, IReg>,
) -> Result<(Seq<SpecIROp>, Map<Seq<char>, IReg>), SpecLowerErr> {
    match s {
        Stmt::Declare(x, e) => match spec_lower_expr(e, ops, binds) {
            Err(er) => Err(er),
            Ok(ops1) => {
                let ops2 = ops1.push(
                    SpecIROp::Store((ops1.len() - 1) as IReg, spec_store_meta(x@)),
                );
                Ok((ops2, binds.insert(x@, (ops2.len() - 1) as IReg)))
            },
        },
        Stmt::Assign(x, e) => match spec_lower_expr(e, ops, binds) {
            Err(er) => Err(er),
            Ok(ops1) => {
                let ops2 = ops1.push(
                    SpecIROp::Store((ops1.len() - 1) as IReg, spec_store_meta(x@)),
                );
                Ok((ops2, binds.insert(x@, (ops2.len() - 1) as IReg)))
            },
        },
        Stmt::For(_, _) => Err(SpecLowerErr::Unsupported),
        Stmt::If(_, _) => Err(SpecLowerErr::Unsupported),
    }
}

/// The model of lowering a straight-line body, statement by statement.
pub open spec fn spec_lower_body(
    stmts: Seq<Stmt>,
    ops: Seq<SpecIROp>,
    binds: Map<Seq<char>, IReg>,
) -> Result<(Seq<SpecIROp>, Map<Seq<char>, IReg>), SpecLowerErr>
    decreases stmts.len(),
{
    if stmts.len() == 0 {
        Ok((ops, binds))
    } else {
        match spec_lower_stmt(stmts[0], ops, binds) {
            Err(er) => Err(er),
            Ok((ops1, binds1)) => spec_lower_body(
                stmts.subrange(1, stmts.len() as int),
                ops1,
                binds1,
            ),
        }
    }
}

/// An executable lowering error matches its model.
pub open spec fn spec_err_match(e1: CompileError, e2: SpecLowerErr) -> bool {
    match (e1, e2) {
        (CompileError::UnboundVariable { name }, SpecLowerErr::Unbound(x)) => name@ == x,
        (CompileError::UnsupportedConstruct, SpecLowerErr::Unsupported) => true,
        _ => false,
    }
}

/// The contract of every expression-lowering function: the context's
/// ops become exactly what the model says, the returned vreg is the last
/// op's index, and the binding table is untouched. On an error the
/// matching model error is returned and the binding table is still
/// untouched.
pub open spec fn spec_expr_result(
    e: Expr,
    pre: LocalCtx,
    post: LocalCtx,
    r: Result<IReg, CompileError>,
) -> bool {
    &&& post.vtoi@ == pre.vtoi@
    &&& post.lcounter == pre.lcounter
    &&& match (r, spec_lower_expr(e, pre.ops.deep_view(), pre.vtoi@)) {
        (Ok(reg), Ok(ops2)) => post.ops.deep_view() == ops2 && ops2.len() >= 1 && reg + 1
            == ops2.len(),
        (Err(e1), Err(e2)) => spec_err_match(e1, e2),
        _ => false,
    }
}

/// The contract of statement lowering: ops and binding table become
/// what the model says; the returned vreg is the `Store`'s own index.
pub open spec fn spec_stmt_result(
    s: Stmt,
    pre: LocalCtx,
    post: LocalCtx,
    r: Result<IReg, CompileError>,
) -> bool {
    &&& post.lcounter == pre.lcounter
    &&& match (r, spec_lower_stmt(s, pre.ops.deep_view(), pre.vtoi@)) {
        (Ok(reg), Ok((ops2, binds2))) => post.ops.deep_view() == ops2 && post.vtoi@ == binds2
            && ops2.len() >= 1 && reg + 1 == ops2.len(),
        (Err(e1), Err(e2)) => spec_err_match(e1, e2) && post.vtoi@ == pre.vtoi@,
        _ => false,
    }
}

/// Lowers a numeric literal: one `LoadImmediate`.
pub fn num_to_ir(num: u64, ctx: &mut LocalCtx) -> (r: Result<IReg, CompileError>)
    ensures
        spec_expr_result(Expr::Num(num), *old(ctx), *final(ctx), r),
{
    let ghost pre = ctx.ops.deep_view();
    ctx.ops.push(IROp::Load(IRValue::U64(num)));
    proof {
        assert(ctx.ops.deep_view() =~= pre.push(SpecIROp::Load(SpecIRValue::U64(num))));
    }
    Ok(ctx.ops.len() - 1)
}

proof fn lemma_expr_size_pos(e: Expr)
    ensures
        spec_expr_size(e) >= 1,
{
}

/// Lowers `e1 + e2`: left operand fully, then right operand, then the
/// `Add` over the two resulting vregs.
pub fn add_to_ir(e1: &Expr, e2: &Expr, ctx: &mut LocalCtx) -> (r: Result<IReg, CompileError>)
    ensures
        spec_expr_result(
            Expr::Addition(Box::new(*e1), Box::new(*e2)),
            *old(ctx),
            *final(ctx),
            r,
        ),
    decreases spec_expr_size(*e1) + spec_expr_size(*e2),
{
    proof {
        lemma_expr_size_pos(*e1);
        lemma_expr_size_pos(*e2);
    }
    let r1 = match expr_to_ir(e1, ctx) {
        Ok(reg) => reg,
        Err(er) => {
            return Err(er);
        },
    };
    let r2 = match expr_to_ir(e2, ctx) {
        Ok(reg) => reg,
        Err(er) => {
            return Err(er);
        },
    };
    let ghost pre = ctx.ops.deep_view();
    ctx.ops.push(IROp::Add(r1, r2));
    proof {
        assert(ctx.ops.deep_view() =~= pre.push(SpecIROp::Add(r1, r2)));
    }
    Ok(ctx.ops.len() - 1)
}

/// Lowers `e1 - e2`, operands left to right.
pub fn sub_to_ir(e1: &Expr, e2: &Expr, ctx: &mut LocalCtx) -> (r: Result<IReg, CompileError>)
    ensures
        spec_expr_result(Expr::Sub(Box::new(*e1), Box::new(*e2)), *old(ctx), *final(ctx), r),
    decreases spec_expr_size(*e1) + spec_expr_size(*e2),
{
    proof {
        lemma_expr_size_pos(*e1);
        lemma_expr_size_pos(*e2);
    }
    let r1 = match expr_to_ir(e1, ctx) {
        Ok(reg) => reg,
        Err(er) => {
            return Err(er);
        },
    };
    let r2 = match expr_to_ir(e2, ctx) {
        Ok(reg) => reg,
        Err(er) => {
            return Err(er);
        },
    };
    let ghost pre = ctx.ops.deep_view();
    ctx.ops.push(IROp::Sub(r1, r2));
    proof {
        assert(ctx.ops.deep_view() =~= pre.push(SpecIROp::Sub(r1, r2)));
    }
    Ok(ctx.ops.len() - 1)
}

/// Lowers `e1 * e2`, operands left to right.
pub fn mul_to_ir(e1: &Expr, e2: &Expr, ctx: &mut LocalCtx) -> (r: Result<IReg, CompileError>)
    ensures
        spec_expr_result(Expr::Mul(Box::new(*e1), Box::new(*e2)), *old(ctx), *final(ctx), r),
    decreases spec_expr_size(*e1) + spec_expr_size(*e2),
{
    proof {
        lemma_expr_size_pos(*e1);
        lemma_expr_size_pos(*e2);
    }
    let r1 = match expr_to_ir(e1, ctx) {
        Ok(reg) => reg,
        Err(er) => {
            return Err(er);
        },
    };
    let r2 = match expr_to_ir(e2, ctx) {
        Ok(reg) => reg,
        Err(er) => {
            return Err(er);
        },
    };
    let ghost pre = ctx.ops.deep_view();
    ctx.ops.push(IROp::Mul(r1, r2));
    proof {
        assert(ctx.ops.deep_view() =~= pre.push(SpecIROp::Mul(r1, r2)));
    }
    Ok(ctx.ops.len() - 1)
}

/// Lowers a call: every argument left to right, then the `Call` over
/// the argument vregs.
pub fn fcall_to_ir(label: &String, exprs: &Vec<Expr>, ctx: &mut LocalCtx) -> (r: Result<
    IReg,
    CompileError,
>)
    ensures
        spec_expr_result(Expr::FuncCall(*label, *exprs), *old(ctx), *final(ctx), r),
    decreases spec_exprs_size(exprs@),
{
    let ghost full = exprs@;
    let ghost ops0 = old(ctx).ops.deep_view();
    let ghost binds = old(ctx).vtoi@;
    let mut regs: Vec<IReg> = Vec::new();
    let mut i: usize = 0;
    proof {
        assert(full.subrange(0, full.len() as int) =~= full);
    }
    while i < exprs.len()
        invariant
            i <= full.len(),
            full == exprs@,
            binds == ctx.vtoi@,
            binds == old(ctx).vtoi@,
            ops0 == old(ctx).ops.deep_view(),
            ctx.lcounter == old(ctx).lcounter,
            match spec_lower_args(
                full.subrange(i as int, full.len() as int),
                ctx.ops.deep_view(),
                binds,
            ) {
                Ok((ops_f, regs_f)) => spec_lower_args(full, ops0, binds) == Ok::<
                    (Seq<SpecIROp>, Seq<IReg>),
                    SpecLowerErr,
                >((ops_f, regs@ + regs_f)),
                Err(er) => spec_lower_args(full, ops0, binds) == Err::<
                    (Seq<SpecIROp>, Seq<IReg>),
                    SpecLowerErr,
                >(er),
            },
        decreases full.len() - i,
    {
        proof {
            lemma_exprs_size_elem(full, i as int);
        }
        let ghost sub = full.subrange(i as int, full.len() as int);
        let ghost pre_regs = regs@;
        let ghost ops_i = ctx.ops.deep_view();
        proof {
            assert(sub[0] == full[i as int]);
            assert(sub.subrange(1, sub.len() as int) =~= full.subrange(
                i as int + 1,
                full.len() as int,
            ));
        }
        match expr_to_ir(&exprs[i], ctx) {
            Err(er) => {
                proof {
                    assert(spec_lower_args(sub, ops_i, binds) is Err);
                    assert(spec_lower_args(full, ops0, binds) is Err);
                    assert(spec_lower_expr(Expr::FuncCall(*label, *exprs), ops0, binds) is Err);
                }
                return Err(er);
            },
            Ok(reg) => {
                regs.push(reg);
                proof {
                    assert(regs@ =~= pre_regs.push(reg));
                    match spec_lower_args(
                        full.subrange(i as int + 1, full.len() as int),
                        ctx.ops.deep_view(),
                        binds,
                    ) {
                        Ok((ops_f, regs_f)) => {
                            assert(pre_regs + (seq![reg] + regs_f) =~= regs@ + regs_f);
                        },
                        Err(_) => {},
                    }
                }
                i = i + 1;
            },
        }
    }
    proof {
        assert(full.subrange(full.len() as int, full.len() as int) =~= Seq::<Expr>::empty());
        assert(regs@ + Seq::<IReg>::empty() =~= regs@);
    }
    let ghost pre = ctx.ops.deep_view();
    let ghost regsv = regs@;
    ctx.ops.push(IROp::Call(label.clone(), regs));
    proof {
        assert(ctx.ops.deep_view() =~= pre.push(SpecIROp::Call(label@, regsv)));
    }
    Ok(ctx.ops.len() - 1)
}

/// Lowers one expression, dispatching on its kind.
pub fn expr_to_ir(e: &Expr, ctx: &mut LocalCtx) -> (r: Result<IReg, CompileError>)
    ensures
        spec_expr_result(*e, *old(ctx), *final(ctx), r),
    decreases spec_expr_size(*e),
{
    match e {
        Expr::Num(n) => num_to_ir(*n, ctx),
        Expr::Name(x) => var_to_ir(x, ctx),
        Expr::Addition(e1, e2) => add_to_ir(e1, e2, ctx),
        Expr::Sub(e1, e2) => sub_to_ir(e1, e2, ctx),
        Expr::Mul(e1, e2) => mul_to_ir(e1, e2, ctx),
        Expr::FuncCall(label, args) => fcall_to_ir(label, args, ctx),
    }
}

/// Lowers a name reference: the binding table resolves the name to the
/// vreg of its most recent `Store`, and a `Move` of that vreg is
/// emitted; an unbound name is fatal.
pub fn var_to_ir(var: &String, ctx: &mut LocalCtx) -> (r: Result<IReg, CompileError>)
    ensures
        spec_expr_result(Expr::Name(*var), *old(ctx), *final(ctx), r),
{
    match ctx.vtoi.get(var) {
        None => Err(CompileError::UnboundVariable { name: var.clone() }),
        Some(reg) => {
            let ghost pre = ctx.ops.deep_view();
            let mut meta = String::from_str("moved from ");
            meta.append(var.as_str());
            ctx.ops.push(IROp::Mov(reg, meta));
            proof {
                assert(ctx.ops.deep_view() =~= pre.push(SpecIROp::Mov(reg, spec_mov_meta(var@))));
            }
            Ok(ctx.ops.len() - 1)
        },
    }
}

/// The size of one statement, for bounds on lowered code.
pub open spec fn spec_stmt_size(s: Stmt) -> nat {
    match s {
        Stmt::Assign(_, e) => spec_expr_size(e) + 1,
        Stmt::Declare(_, e) => spec_expr_size(e) + 1,
        Stmt::For(_, _) => 1,
        Stmt::If(_, _) => 1,
    }
}

/// The joint size of a body.
pub open spec fn spec_body_size(stmts: Seq<Stmt>) -> nat
    decreases stmts.len(),
{
    if stmts.len() == 0 {
        0
    } else {
        spec_stmt_size(stmts[0]) + spec_body_size(stmts.subrange(1, stmts.len() as int))
    }
}

/// A binding table whose vregs all lie below `n`.
pub open spec fn spec_binds_wf(binds: Map<Seq<char>, IReg>, n: int) -> bool {
    forall|k: Seq<char>| binds.contains_key(k) ==> #[trigger] binds[k] < n
}

proof fn lemma_push_wf(ops: Seq<SpecIROp>, op: SpecIROp)
    requires
        spec_ops_wf(ops),
        forall|j: int|
            0 <= j < spec_op_operands(op).len() ==> #[trigger] spec_op_operands(op)[j] < ops.len(),
    ensures
        spec_ops_wf(ops.push(op)),
        spec_total_operands(ops.push(op)) == spec_total_operands(ops) + spec_op_operands(op).len(),
{
    let ops2 = ops.push(op);
    assert forall|i: int, j: int|
        0 <= i < ops2.len() && 0 <= j < spec_op_operands(ops2[i]).len() implies #[trigger] spec_op_operands(
        ops2[i],
    )[j] < i by {
        if i < ops.len() {
            assert(ops2[i] == ops[i]);
        } else {
            assert(ops2[i] == op);
        }
    }
    assert(ops2.drop_last() =~= ops);
    assert(ops2.last() == op);
}

/// The position-as-identity invariant, preserved by expression
/// lowering: the result extends the op sequence by one to
/// `spec_expr_size(e)` ops, every operand of every op refers to an
/// earlier position, and the operand total grows by at most twice the
/// expression size. A lowered block therefore meets the preconditions
/// of the register allocator.
pub proof fn lemma_lower_expr_wf(e: Expr, ops: Seq<SpecIROp>, binds: Map<Seq<char>, IReg>)
    requires
        spec_ops_wf(ops),
        spec_binds_wf(binds, ops.len() as int),
        ops.len() + spec_expr_size(e) <= usize::MAX,
    ensures
        match spec_lower_expr(e, ops, binds) {
            Ok(ops2) => ops.len() < ops2.len() <= ops.len() + spec_expr_size(e) && spec_ops_wf(
                ops2,
            ) && spec_total_operands(ops2) <= spec_total_operands(ops) + 2 * spec_expr_size(e),
            Err(_) => true,
        },
    decreases spec_expr_size(e),
{
    match e {
        Expr::Num(n) => {
            let op = SpecIROp::Load(SpecIRValue::U64(n));
            assert(spec_op_operands(op) =~= Seq::<IReg>::empty());
            lemma_push_wf(ops, op);
        },
        Expr::Name(x) => {
            if binds.contains_key(x@) {
                let op = SpecIROp::Mov(binds[x@], spec_mov_meta(x@));
                assert(spec_op_operands(op) == seq![binds[x@]]);
                assert(spec_op_operands(op)[0] == binds[x@]);
                lemma_push_wf(ops, op);
            }
        },
        Expr::Addition(e1, e2) => {
            lemma_lower_binary_wf(*e1, *e2, ops, binds);
        },
        Expr::Sub(e1, e2) => {
            lemma_lower_binary_wf(*e1, *e2, ops, binds);
        },
        Expr::Mul(e1, e2) => {
            lemma_lower_binary_wf(*e1, *e2, ops, binds);
        },
        Expr::FuncCall(label, args) => {
            lemma_lower_args_wf(args@, ops, binds);
            match spec_lower_args(args@, ops, binds) {
                Err(_) => {},
                Ok((ops1, regs)) => {
                    let op = SpecIROp::Call(label@, regs);
                    assert(spec_op_operands(op) == regs);
                    lemma_push_wf(ops1, op);
                    if ops1.len() == ops.len() {
                        // No argument was lowered, so the pushed call is the
                        // only growth.
                        assert(args@.len() == 0);
                        assert(regs.len() == 0);
                    }
                },
            }
        },
    }
}

/// The shared case of the three binary operators: both operand results
/// refer to positions before the appended op.
proof fn lemma_lower_binary_wf(e1: Expr, e2: Expr, ops: Seq<SpecIROp>, binds: Map<Seq<char>, IReg>)
    requires
        spec_ops_wf(ops),
        spec_binds_wf(binds, ops.len() as int),
        ops.len() + spec_expr_size(e1) + spec_expr_size(e2) + 1 <= usize::MAX,
    ensures
        match spec_lower_expr(e1, ops, binds) {
            Err(_) => true,
            Ok(ops1) => match spec_lower_expr(e2, ops1, binds) {
                Err(_) => true,
                Ok(ops2) => {
                    let a = (ops1.len() - 1) as IReg;
                    let b = (ops2.len() - 1) as IReg;
                    &&& ops.len() < ops1.len() <= ops.len() + spec_expr_size(e1)
                    &&& ops1.len() <= ops2.len() <= ops1.len() + spec_expr_size(e2)
                    &&& a < ops2.len() && b < ops2.len()
                    &&& spec_ops_wf(ops2.push(SpecIROp::Add(a, b)))
                    &&& spec_ops_wf(ops2.push(SpecIROp::Sub(a, b)))
                    &&& spec_ops_wf(ops2.push(SpecIROp::Mul(a, b)))
                    &&& spec_total_operands(ops2.push(SpecIROp::Add(a, b))) <= spec_total_operands(
                        ops,
                    ) + 2 * (spec_expr_size(e1) + spec_expr_size(e2)) + 2
                    &&& spec_total_operands(ops2.push(SpecIROp::Sub(a, b))) <= spec_total_operands(
                        ops,
                    ) + 2 * (spec_expr_size(e1) + spec_expr_size(e2)) + 2
                    &&& spec_total_operands(ops2.push(SpecIROp::Mul(a, b))) <= spec_total_operands(
                        ops,
                    ) + 2 * (spec_expr_size(e1) + spec_expr_size(e2)) + 2
                },
            },
        },
    decreases spec_expr_size(e1) + spec_expr_size(e2),
{
    lemma_expr_size_pos(e2);
    lemma_lower_expr_wf(e1, ops, binds);
    match spec_lower_expr(e1, ops, binds) {
        Err(_) => {},
        Ok(ops1) => {
            lemma_lower_expr_wf(e2, ops1, binds);
            match spec_lower_expr(e2, ops1, binds) {
                Err(_) => {},
                Ok(ops2) => {
                    let a = (ops1.len() - 1) as IReg;
                    let b = (ops2.len() - 1) as IReg;
                    let add = SpecIROp::Add(a, b);
                    let sub = SpecIROp::Sub(a, b);
                    let mul = SpecIROp::Mul(a, b);
                    assert(spec_op_operands(add) == seq![a, b]);
                    assert(spec_op_operands(sub) == seq![a, b]);
                    assert(spec_op_operands(mul) == seq![a, b]);
                    assert(spec_op_operands(add)[0] == a && spec_op_operands(add)[1] == b);
                    assert(spec_op_operands(sub)[0] == a && spec_op_operands(sub)[1] == b);
                    assert(spec_op_operands(mul)[0] == a && spec_op_operands(mul)[1] == b);
                    lemma_push_wf(ops2, add);
                    lemma_push_wf(ops2, sub);
                    lemma_push_wf(ops2, mul);
                },
            }
        },
    }
}

/// The invariant for argument lists: every yielded vreg refers into the
/// extended sequence, and the operand total grows by less than twice
/// the joint size, leaving room for the call op's own operands.
pub proof fn lemma_lower_args_wf(args: Seq<Expr>, ops: Seq<SpecIROp>, binds: Map<Seq<char>, IReg>)
    requires
        spec_ops_wf(ops),
        spec_binds_wf(binds, ops.len() as int),
        ops.len() + spec_exprs_size(args) <= usize::MAX,
    ensures
        match spec_lower_args(args, ops, binds) {
            Ok((ops2, regs)) => {
                &&& ops.len() <= ops2.len() <= ops.len() + spec_exprs_size(args)
                &&& args.len() > 0 ==> ops.len() < ops2.len()
                &&& spec_ops_wf(ops2)
                &&& regs.len() == args.len()
                &&& forall|j: int| 0 <= j < regs.len() ==> #[trigger] regs[j] < ops2.len()
                &&& spec_total_operands(ops2) + 2 * args.len() <= spec_total_operands(ops) + 2
                    * spec_exprs_size(args)
            },
            Err(_) => true,
        },
    decreases spec_exprs_size(args),
{
    if args.len() > 0 {
        lemma_exprs_size_elem(args, 0);
        lemma_lower_expr_wf(args[0], ops, binds);
        match spec_lower_expr(args[0], ops, binds) {
            Err(_) => {},
            Ok(ops1) => {
                let rest = args.subrange(1, args.len() as int);
                lemma_lower_args_wf(rest, ops1, binds);
                match spec_lower_args(rest, ops1, binds) {
                    Err(_) => {},
                    Ok((ops2, regs)) => {
                        let reg = (ops1.len() - 1) as IReg;
                        assert(seq![reg] + regs =~= seq![reg] + regs);
                        assert((seq![reg] + regs).len() == 1 + regs.len());
                        assert forall|j: int| 0 <= j < (seq![reg] + regs).len() implies #[trigger] (
                        seq![reg] + regs)[j] < ops2.len() by {
                            if j == 0 {
                                assert((seq![reg] + regs)[0] == reg);
                            } else {
                                assert((seq![reg] + regs)[j] == regs[j - 1]);
                            }
                        }
                    },
                }
            },
        }
    }
}

/// The invariant for statements: the binding table stays within the
/// extended op sequence.
pub proof fn lemma_lower_stmt_wf(s: Stmt, ops: Seq<SpecIROp>, binds: Map<Seq<char>, IReg>)
    requires
        spec_ops_wf(ops),
        spec_binds_wf(binds, ops.len() as int),
        ops.len() + spec_stmt_size(s) <= usize::MAX,
    ensures
        match spec_lower_stmt(s, ops, binds) {
            Ok((ops2, binds2)) => ops.len() < ops2.len() <= ops.len() + spec_stmt_size(s)
                && spec_ops_wf(ops2) && spec_binds_wf(binds2, ops2.len() as int)
                && spec_total_operands(ops2) <= spec_total_operands(ops) + 2 * spec_stmt_size(s),
            Err(_) => true,
        },
{
    match s {
        Stmt::Declare(x, e) => {
            lemma_lower_expr_wf(e, ops, binds);
            match spec_lower_expr(e, ops, binds) {
                Err(_) => {},
                Ok(ops1) => {
                    let op = SpecIROp::Store((ops1.len() - 1) as IReg, spec_store_meta(x@));
                    assert(spec_op_operands(op) == seq![(ops1.len() - 1) as IReg]);
                    assert(spec_op_operands(op)[0] == (ops1.len() - 1) as IReg);
                    lemma_push_wf(ops1, op);
                },
            }
        },
        Stmt::Assign(x, e) => {
            lemma_lower_expr_wf(e, ops, binds);
            match spec_lower_expr(e, ops, binds) {
                Err(_) => {},
                Ok(ops1) => {
                    let op = SpecIROp::Store((ops1.len() - 1) as IReg, spec_store_meta(x@));
                    assert(spec_op_operands(op) == seq![(ops1.len() - 1) as IReg]);
                    assert(spec_op_operands(op)[0] == (ops1.len() - 1) as IReg);
                    lemma_push_wf(ops1, op);
                },
            }
        },
        Stmt::For(_, _) => {},
        Stmt::If(_, _) => {},
    }
}

/// The invariant for whole bodies: a lowered straight-line block is
/// well formed and its operand total is bounded, which discharges the
/// register allocator's preconditions on any lowered block.
pub proof fn lemma_lower_body_wf(stmts: Seq<Stmt>, ops: Seq<SpecIROp>, binds: Map<Seq<char>, IReg>)
    requires
        spec_ops_wf(ops),
        spec_binds_wf(binds, ops.len() as int),
        ops.len() + spec_body_size(stmts) <= usize::MAX,
    ensures
        match spec_lower_body(stmts, ops, binds) {
            Ok((ops2, binds2)) => ops.len() <= ops2.len() <= ops.len() + spec_body_size(stmts)
                && spec_ops_wf(ops2) && spec_binds_wf(binds2, ops2.len() as int)
                && spec_total_operands(ops2) <= spec_total_operands(ops) + 2 * spec_body_size(
                stmts,
            ),
            Err(_) => true,
        },
    decreases stmts.len(),
{
    if stmts.len() > 0 {
        assert(spec_stmt_size(stmts[0]) >= 1);
        lemma_lower_stmt_wf(stmts[0], ops, binds);
        match spec_lower_stmt(stmts[0], ops, binds) {
            Err(_) => {},
            Ok((ops1, binds1)) => {
                lemma_lower_body_wf(stmts.subrange(1, stmts.len() as int), ops1, binds1);
            },
        }
    }
}

/// The rebinding law: lowering `x := e` rebinds exactly `x`, to the
/// `Store` op's own vreg. Every other name keeps its binding, so
/// lowering one declaration never mutates another name's binding; and
/// since the table maps each name to one vreg, every later reference
/// resolves to the new vreg, never the old one.
pub proof fn lemma_rebinding(x: String, e: Expr, ops: Seq<SpecIROp>, binds: Map<Seq<char>, IReg>)
    ensures
        match spec_lower_stmt(Stmt::Declare(x, e), ops, binds) {
            Ok((ops2, binds2)) => {
                &&& ops2.len() >= 1
                &&& binds2 == binds.insert(x@, (ops2.len() - 1) as IReg)
                &&& binds2.contains_key(x@) && binds2[x@] == (ops2.len() - 1) as IReg
                &&& ops2.last() == SpecIROp::Store((ops2.len() - 2) as IReg, spec_store_meta(x@))
                &&& forall|y: Seq<char>|
                    y != x@ ==> ((#[trigger] binds2.contains_key(y)) == binds.contains_key(y)) && (
                    binds.contains_key(y) ==> binds2[y] == binds[y])
            },
            Err(_) => true,
        },
{
    match spec_lower_expr(e, ops, binds) {
        Ok(ops1) => {
            let ops2 = ops1.push(SpecIROp::Store((ops1.len() - 1) as IReg, spec_store_meta(x@)));
            assert(spec_lower_stmt(Stmt::Declare(x, e), ops, binds) == Ok::<
                (Seq<SpecIROp>, Map<Seq<char>, IReg>),
                SpecLowerErr,
            >((ops2, binds.insert(x@, (ops2.len() - 1) as IReg))));
            assert(ops2.last() == SpecIROp::Store((ops1.len() - 1) as IReg, spec_store_meta(x@)));
            assert(ops1.len() - 1 == ops2.len() - 2);
        },
        Err(_) => {},
    }
}

/// The reference law: a name reference lowers to a `Move` of exactly
/// the vreg the binding table currently holds for it, and expression
/// lowering never changes the table. With `lemma_rebinding` this gives
/// the declare-then-reference behaviour: after `a := e1`, lowering a
/// reference to `a` inside a later statement moves from the vreg of
/// `a`'s `Store`, and lowering that statement leaves `a`'s binding
/// untouched unless it rebinds `a` itself.
pub proof fn lemma_reference_uses_latest(x: String, ops: Seq<SpecIROp>, binds: Map<Seq<char>, IReg>)
    requires
        binds.contains_key(x@),
    ensures
        spec_lower_expr(Expr::Name(x), ops, binds) == Ok::<Seq<SpecIROp>, SpecLowerErr>(
            ops.push(SpecIROp::Mov(binds[x@], spec_mov_meta(x@))),
        ),
{
}

/// Lowers `name := expr` as a declaration: the expression, then a
/// `Store`, then the binding of the name to the `Store`'s own vreg.
/// Re-declaring an existing name overwrites the binding; it does not
/// error.
pub fn declare_to_ir(var: &String, expr: &Expr, ctx: &mut LocalCtx) -> (r: Result<
    IReg,
    CompileError,
>)
    ensures
        spec_stmt_result(Stmt::Declare(*var, *expr), *old(ctx), *final(ctx), r),
{
    let r1 = match expr_to_ir(expr, ctx) {
        Ok(reg) => reg,
        Err(er) => {
            return Err(er);
        },
    };
    let ghost pre = ctx.ops.deep_view();
    let mut meta = String::from_str("store into ");
    meta.append(var.as_str());
    ctx.ops.push(IROp::Store(r1, meta));
    let reg = ctx.ops.len() - 1;
    proof {
        assert(ctx.ops.deep_view() =~= pre.push(SpecIROp::Store(r1, spec_store_meta(var@))));
    }
    ctx.vtoi.set(var.clone(), reg);
    Ok(reg)
}

/// Lowers `name := expr` as an assignment; the op sequence and the
/// binding update are the same as for a declaration.
pub fn assign_to_ir(var: &String, expr: &Expr, ctx: &mut LocalCtx) -> (r: Result<
    IReg,
    CompileError,
>)
    ensures
        spec_stmt_result(Stmt::Assign(*var, *expr), *old(ctx), *final(ctx), r),
{
    let r1 = match expr_to_ir(expr, ctx) {
        Ok(reg) => reg,
        Err(er) => {
            return Err(er);
        },
    };
    let ghost pre = ctx.ops.deep_view();
    let mut meta = String::from_str("store into ");
    meta.append(var.as_str());
    ctx.ops.push(IROp::Store(r1, meta));
    let reg = ctx.ops.len() - 1;
    proof {
        assert(ctx.ops.deep_view() =~= pre.push(SpecIROp::Store(r1, spec_store_meta(var@))));
    }
    ctx.vtoi.set(var.clone(), reg);
    Ok(reg)
}

/// Lowers one statement. Control flow is explicitly unsupported in this
/// core: it reports `UnsupportedConstruct` rather than attempting
/// partial code generation.
pub fn stmt_to_ir(stmt: &Stmt, ctx: &mut LocalCtx) -> (r: Result<IReg, CompileError>)
    ensures
        spec_stmt_result(*stmt, *old(ctx), *final(ctx), r),
{
    match stmt {
        Stmt::Assign(var, e) => assign_to_ir(var, e, ctx),
        Stmt::Declare(var, e) => declare_to_ir(var, e, ctx),
        Stmt::For(_, _) => Err(CompileError::UnsupportedConstruct),
        Stmt::If(_, _) => Err(CompileError::UnsupportedConstruct),
    }
}

/// The parameter types of a function, in order.
pub open spec fn spec_param_types(params: Seq<(String, Type)>) -> Seq<Seq<char>> {
    Seq::new(params.len(), |i: int| params[i].1@)
}

/// Lowers a whole function body into one straight-line block. The body
/// is lowered statement by statement over one growing op sequence and
/// one binding table, both starting empty.
pub fn fn_to_ir(func: Func) -> (r: Result<IRBlock, CompileError>)
    ensures
        match (r, spec_lower_body(
            func.body@,
            Seq::<SpecIROp>::empty(),
            Map::<Seq<char>, IReg>::empty(),
        )) {
            (Ok(block), Ok((ops2, binds2))) => block.label@ == func.name@
                && block.ctx.ops.deep_view() == ops2 && block.ctx.vtoi@ == binds2
                && block.ctx.lcounter == 0 && block.params.deep_view() == spec_param_types(
                func.params@,
            ),
            (Err(e1), Err(e2)) => spec_err_match(e1, e2),
            _ => false,
        },
{
    let ghost paramsv = func.params@;
    let mut params: Vec<Type> = Vec::new();
    let mut i: usize = 0;
    proof {
        assert(params.deep_view() =~= Seq::new(0nat, |j: int| paramsv[j].1@));
    }
    while i < func.params.len()
        invariant
            i <= paramsv.len(),
            paramsv == func.params@,
            params.deep_view() == Seq::new(i as nat, |j: int| paramsv[j].1@),
        decreases paramsv.len() - i,
    {
        let t = func.params[i].1.clone();
        let ghost prev = params.deep_view();
        proof {
            assert(t@ == paramsv[i as int].1@);
        }
        params.push(t);
        i = i + 1;
        proof {
            assert(params.deep_view() =~= prev.push(paramsv[i as int - 1].1@));
            assert(params.deep_view() =~= Seq::new(i as nat, |j: int| paramsv[j].1@));
        }
    }
    let ghost bodyv = func.body@;
    let mut ctx = LocalCtx::new();
    let n = func.body.len();
    let mut k: usize = 0;
    proof {
        assert(bodyv.subrange(0, bodyv.len() as int) =~= bodyv);
        assert(ctx.ops.deep_view() =~= Seq::<SpecIROp>::empty());
    }
    while k < n
        invariant
            k <= n,
            n == bodyv.len(),
            bodyv == func.body@,
            paramsv == func.params@,
            params.deep_view() == spec_param_types(paramsv),
            ctx.lcounter == 0,
            match spec_lower_body(
                bodyv.subrange(k as int, bodyv.len() as int),
                ctx.ops.deep_view(),
                ctx.vtoi@,
            ) {
                Ok((ops_f, binds_f)) => spec_lower_body(
                    bodyv,
                    Seq::<SpecIROp>::empty(),
                    Map::<Seq<char>, IReg>::empty(),
                ) == Ok::<(Seq<SpecIROp>, Map<Seq<char>, IReg>), SpecLowerErr>((ops_f, binds_f)),
                Err(er) => spec_lower_body(
                    bodyv,
                    Seq::<SpecIROp>::empty(),
                    Map::<Seq<char>, IReg>::empty(),
                ) == Err::<(Seq<SpecIROp>, Map<Seq<char>, IReg>), SpecLowerErr>(er),
            },
        decreases n - k,
    {
        let ghost sub = bodyv.subrange(k as int, bodyv.len() as int);
        let ghost ops_k = ctx.ops.deep_view();
        let ghost binds_k = ctx.vtoi@;
        proof {
            assert(sub[0] == bodyv[k as int]);
            assert(sub.subrange(1, sub.len() as int) =~= bodyv.subrange(
                k as int + 1,
                bodyv.len() as int,
            ));
        }
        match stmt_to_ir(&func.body[k], &mut ctx) {
            Err(er) => {
                proof {
                    assert(spec_lower_body(sub, ops_k, binds_k) is Err);
                }
                return Err(er);
            },
            Ok(_) => {
                k = k + 1;
            },
        }
    }
    proof {
        assert(bodyv.subrange(bodyv.len() as int, bodyv.len() as int) =~= Seq::<Stmt>::empty());
    }
    Ok(IRBlock { label: func.name, params, ctx })
}

} // verus!
