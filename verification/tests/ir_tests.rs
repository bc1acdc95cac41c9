use tinycomp::error::CompileError;
use tinycomp::ir::Expr;
use tinycomp::ir::Func;
use tinycomp::ir::Stmt;
use tinycomp::ir::declare_to_ir;
use tinycomp::ir::expr_to_ir;
use tinycomp::ir::fn_to_ir;
use tinycomp::ir::ir_types::IROp;
use tinycomp::ir::ir_types::IRValue;
use tinycomp::ir::ir_types::LocalCtx;
use tinycomp::ir::stmt_to_ir;

fn get_ast() -> Func {
    let expr1 = Expr::Sub(
        Box::new(Expr::Addition(
            Box::new(Expr::Num(32)),
            Box::new(Expr::Num(49)),
        )),
        Box::new(Expr::Num(32)),
    );
    let stmt1 = Stmt::Declare("a".to_string(), expr1);
    let expr2 = Expr::Sub(
        Box::new(Expr::Addition(
            Box::new(Expr::Num(32)),
            Box::new(Expr::Name(String::from("a"))),
        )),
        Box::new(Expr::Num(32)),
    );
    let stmt2 = Stmt::Assign("a".to_string(), expr2);
    Func {
        name: String::from("test function"),
        ttype: String::from("kek"),
        params: Vec::from([(String::from("lol"), String::from("kekington"))]),
        body: Vec::from([stmt1, stmt2]),
    }
}

#[test]
fn ir_printing_test() {
    let func = get_ast();
    let ret = fn_to_ir(func).unwrap();
    println!("{:?}", ret);
    println!("{}", ret.to_string());
}

#[test]
fn mod_printing_test() {
    let expr1 = Expr::Sub(
        Box::new(Expr::Addition(
            Box::new(Expr::Num(32)),
            Box::new(Expr::Num(49)),
        )),
        Box::new(Expr::Num(32)),
    );
    let stmt1 = Stmt::Declare("a".to_string(), expr1);
    let expr2 = Expr::Sub(
        Box::new(Expr::Addition(
            Box::new(Expr::Num(32)),
            Box::new(Expr::Name(String::from("a"))),
        )),
        Box::new(Expr::Num(32)),
    );
    let expr3 = Expr::FuncCall(
        "function".to_string(),
        Vec::from([Expr::Num(42), Expr::Name("a".to_string())]),
    );
    let stmt2 = Stmt::Assign("a".to_string(), expr2);
    let stmt3 = Stmt::Declare("ret".to_string(), expr3);
    let func = Func {
        name: String::from("test function"),
        ttype: String::from("kek"),
        params: Vec::from([(String::from("lol"), String::from("kekington"))]),
        body: Vec::from([stmt1, stmt2, stmt3]),
    };
    let ret = fn_to_ir(func).unwrap();
    println!("{:?}", ret);
    println!("{}", ret.to_string());
}

#[test]
fn declare_then_reference_resolves_first_store() {
    // a := 5; b := a + 2;  — the reference to `a` moves from the vreg of
    // `a`'s Store, and lowering `b` leaves `a`'s binding untouched.
    let mut ctx = LocalCtx::new();
    let ra = declare_to_ir(&"a".to_string(), &Expr::Num(5), &mut ctx).unwrap();
    assert_eq!(ra, 1);
    assert_eq!(ctx.vtoi.get(&"a".to_string()), Some(1));
    let expr = Expr::Addition(
        Box::new(Expr::Name("a".to_string())),
        Box::new(Expr::Num(2)),
    );
    let rb = declare_to_ir(&"b".to_string(), &expr, &mut ctx).unwrap();
    assert_eq!(rb, 5);
    assert_eq!(ctx.vtoi.get(&"a".to_string()), Some(1));
    assert_eq!(ctx.vtoi.get(&"b".to_string()), Some(5));
    assert_eq!(
        ctx.ops,
        vec![
            IROp::Load(IRValue::U64(5)),
            IROp::Store(0, "store into a".to_string()),
            IROp::Mov(1, "moved from a".to_string()),
            IROp::Load(IRValue::U64(2)),
            IROp::Add(2, 3),
            IROp::Store(4, "store into b".to_string()),
        ]
    );
}

#[test]
fn redeclaring_updates_binding() {
    // a := 5; a := 6; a  — the reference must use the new vreg, never the
    // old one.
    let mut ctx = LocalCtx::new();
    declare_to_ir(&"a".to_string(), &Expr::Num(5), &mut ctx).unwrap();
    declare_to_ir(&"a".to_string(), &Expr::Num(6), &mut ctx).unwrap();
    assert_eq!(ctx.vtoi.get(&"a".to_string()), Some(3));
    let r = expr_to_ir(&Expr::Name("a".to_string()), &mut ctx).unwrap();
    assert_eq!(r, 4);
    assert_eq!(ctx.ops[4], IROp::Mov(3, "moved from a".to_string()));
}

#[test]
fn unbound_variable_is_fatal() {
    let mut ctx = LocalCtx::new();
    assert_eq!(
        expr_to_ir(&Expr::Name("z".to_string()), &mut ctx),
        Err(CompileError::UnboundVariable {
            name: "z".to_string()
        })
    );
}

#[test]
fn control_flow_is_unsupported() {
    let mut ctx = LocalCtx::new();
    let stmt = Stmt::For(Expr::Num(1), Vec::new());
    assert_eq!(
        stmt_to_ir(&stmt, &mut ctx),
        Err(CompileError::UnsupportedConstruct)
    );
}

#[test]
fn operands_lower_before_their_op() {
    // a := 5 * 3 + (2 - 1)  — each arithmetic op's two literal operands
    // are loaded before the op itself is emitted, left to right.
    let expr = Expr::Addition(
        Box::new(Expr::Mul(Box::new(Expr::Num(5)), Box::new(Expr::Num(3)))),
        Box::new(Expr::Sub(Box::new(Expr::Num(2)), Box::new(Expr::Num(1)))),
    );
    let mut ctx = LocalCtx::new();
    let r = declare_to_ir(&"a".to_string(), &expr, &mut ctx).unwrap();
    assert_eq!(r, 7);
    assert_eq!(
        ctx.ops,
        vec![
            IROp::Load(IRValue::U64(5)),
            IROp::Load(IRValue::U64(3)),
            IROp::Mul(0, 1),
            IROp::Load(IRValue::U64(2)),
            IROp::Load(IRValue::U64(1)),
            IROp::Sub(3, 4),
            IROp::Add(2, 5),
            IROp::Store(6, "store into a".to_string()),
        ]
    );
}

#[test]
fn call_arguments_lower_left_to_right() {
    let expr = Expr::FuncCall(
        "foo".to_string(),
        vec![Expr::Num(1), Expr::Num(2)],
    );
    let mut ctx = LocalCtx::new();
    let r = expr_to_ir(&expr, &mut ctx).unwrap();
    assert_eq!(r, 2);
    assert_eq!(
        ctx.ops,
        vec![
            IROp::Load(IRValue::U64(1)),
            IROp::Load(IRValue::U64(2)),
            IROp::Call("foo".to_string(), vec![0, 1]),
        ]
    );
}

#[test]
fn block_dump_is_bit_exact() {
    let func = Func {
        name: String::from("main"),
        ttype: String::from("int"),
        params: Vec::new(),
        body: Vec::from([
            Stmt::Declare("a".to_string(), Expr::Num(5)),
            Stmt::Declare(
                "b".to_string(),
                Expr::Addition(
                    Box::new(Expr::Name("a".to_string())),
                    Box::new(Expr::Num(2)),
                ),
            ),
        ]),
    };
    let block = fn_to_ir(func).unwrap();
    let expected = "block main\n\
        ld r0, 5\n\
        str r1, r0 //store into a\n\
        mov r2, r1 //moved from a\n\
        ld r3, 2\n\
        add r4, r2, r3\n\
        str r5, r4 //store into b\n";
    assert_eq!(block.to_string(), expected);
}

#[test]
fn op_line_forms() {
    assert_eq!(
        IROp::Call("f".to_string(), vec![0, 2]).to_string_triple(3),
        "call f(r0, r2)"
    );
    assert_eq!(IROp::Load(IRValue::U64(41)).to_string(), "ld 41");
    assert_eq!(
        IROp::Sub(10, 11).to_string_triple(12),
        "sub r12, r10, r11"
    );
    assert_eq!(IRValue::Var("x".to_string()).to_string(), "x");
    assert_eq!(IRValue::Reg(7).to_string(), "r7");
}
