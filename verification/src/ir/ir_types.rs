//! The intermediate representation: ops over virtual registers, the
//! binding table, blocks, and the stable textual dump.
//!
//! A virtual register is not a separate entity: every op defines exactly
//! one new vreg whose identity is the op's own position in the dense,
//! append-only op sequence. `spec_ops_wf` states the invariant that every
//! operand refers to an earlier position.

use vstd::prelude::*;
use vstd::string::StringExecFns;

use crate::ir::Type;

verus! {

/// A virtual register: the index of its defining op.
pub type IReg = usize;

/// Free-text annotation carried by `Mov` and `Store` lines of the dump.
pub type MetaData = String;

/// The label of a block or of a called function.
pub type Label = String;

/// An IR operand value.
#[derive(Debug, PartialEq, Eq)]
pub enum IRValue {
    Reg(IReg),
    U64(u64),
    Var(String),
}

/// The mathematical model of an operand value.
pub enum SpecIRValue {
    Reg(IReg),
    U64(u64),
    Var(Seq<char>),
}

impl View for IRValue {
    type V = SpecIRValue;

    open spec fn view(&self) -> SpecIRValue {
        match self {
            IRValue::Reg(r) => SpecIRValue::Reg(*r),
            IRValue::U64(n) => SpecIRValue::U64(*n),
            IRValue::Var(s) => SpecIRValue::Var(s.view()),
        }
    }
}

impl DeepView for IRValue {
    type V = SpecIRValue;

    open spec fn deep_view(&self) -> SpecIRValue {
        self.view()
    }
}

/// One IR op. Its own index in the op sequence is the vreg it defines.
#[derive(Debug, PartialEq, Eq)]
pub enum IROp {
    Load(IRValue),
    Mov(IReg, MetaData),
    Store(IReg, MetaData),
    Add(IReg, IReg),
    Sub(IReg, IReg),
    Mul(IReg, IReg),
    Call(Label, Vec<IReg>),
}

/// The mathematical model of an op.
pub enum SpecIROp {
    Load(SpecIRValue),
    Mov(IReg, Seq<char>),
    Store(IReg, Seq<char>),
    Add(IReg, IReg),
    Sub(IReg, IReg),
    Mul(IReg, IReg),
    Call(Seq<char>, Seq<IReg>),
}

impl View for IROp {
    type V = SpecIROp;

    open spec fn view(&self) -> SpecIROp {
        match self {
            IROp::Load(v) => SpecIROp::Load(v.view()),
            IROp::Mov(r, m) => SpecIROp::Mov(*r, m.view()),
            IROp::Store(r, m) => SpecIROp::Store(*r, m.view()),
            IROp::Add(a, b) => SpecIROp::Add(*a, *b),
            IROp::Sub(a, b) => SpecIROp::Sub(*a, *b),
            IROp::Mul(a, b) => SpecIROp::Mul(*a, *b),
            IROp::Call(l, regs) => SpecIROp::Call(l.view(), regs.view()),
        }
    }
}

impl DeepView for IROp {
    type V = SpecIROp;

    open spec fn deep_view(&self) -> SpecIROp {
        self.view()
    }
}

/// The operand vregs an op reads.
pub open spec fn spec_op_operands(op: SpecIROp) -> Seq<IReg> {
    match op {
        SpecIROp::Load(_) => Seq::empty(),
        SpecIROp::Mov(r, _) => seq![r],
        SpecIROp::Store(r, _) => seq![r],
        SpecIROp::Add(a, b) => seq![a, b],
        SpecIROp::Sub(a, b) => seq![a, b],
        SpecIROp::Mul(a, b) => seq![a, b],
        SpecIROp::Call(_, regs) => regs,
    }
}

/// The number of operand occurrences in the whole op sequence.
pub open spec fn spec_total_operands(ops: Seq<SpecIROp>) -> nat
    decreases ops.len(),
{
    if ops.len() == 0 {
        0
    } else {
        spec_total_operands(ops.drop_last()) + spec_op_operands(ops.last()).len()
    }
}

/// Well-formed op sequence: every operand refers to an earlier op, so
/// vreg identity equals op position and the sequence is dense.
pub open spec fn spec_ops_wf(ops: Seq<SpecIROp>) -> bool {
    forall|i: int, j: int|
        0 <= i < ops.len() && 0 <= j < spec_op_operands(ops[i]).len()
            ==> #[trigger] spec_op_operands(ops[i])[j] < i
}

/// The binding table: source-level name to the vreg of its most recent
/// `Store`. Rebinding shadows; a lookup always resolves to the latest
/// binding. Modeled as a map from name to vreg.
#[derive(Debug)]
pub struct Bindings {
    entries: Vec<(String, IReg)>,
}

/// The latest binding of `k` in an entry list, scanning newest first.
pub open spec fn spec_lookup(s: Seq<(Seq<char>, IReg)>, k: Seq<char>) -> Option<IReg>
    decreases s.len(),
{
    if s.len() == 0 {
        None
    } else if s.last().0 == k {
        Some(s.last().1)
    } else {
        spec_lookup(s.drop_last(), k)
    }
}

/// The map an entry list denotes.
pub open spec fn spec_bindings_map(s: Seq<(Seq<char>, IReg)>) -> Map<Seq<char>, IReg> {
    Map::new(
        |k: Seq<char>| spec_lookup(s, k) is Some,
        |k: Seq<char>|
            match spec_lookup(s, k) {
                Some(v) => v,
                None => 0,
            },
    )
}

impl View for Bindings {
    type V = Map<Seq<char>, IReg>;

    closed spec fn view(&self) -> Map<Seq<char>, IReg> {
        spec_bindings_map(self.entries.deep_view())
    }
}

impl Bindings {
    /// An empty table.
    pub fn new() -> (r: Bindings)
        ensures
            r@ == Map::<Seq<char>, IReg>::empty(),
    {
        let r = Bindings { entries: Vec::new() };
        proof {
            assert(r.entries.deep_view() =~= Seq::<(Seq<char>, IReg)>::empty());
            assert(r@ =~= Map::<Seq<char>, IReg>::empty());
        }
        r
    }

    /// Binds `name` to `reg`, shadowing any earlier binding of the name.
    pub fn set(&mut self, name: String, reg: IReg)
        ensures
            final(self)@ == old(self)@.insert(name@, reg),
    {
        let ghost olds = self.entries.deep_view();
        let ghost namev = name@;
        self.entries.push((name, reg));
        proof {
            let news = self.entries.deep_view();
            assert(news =~= olds.push((namev, reg)));
            assert(news.drop_last() =~= olds);
            assert forall|k: Seq<char>| true implies spec_lookup(news, k) == (if k == namev {
                Some(reg)
            } else {
                spec_lookup(olds, k)
            }) by {
                assert(news.last() == (namev, reg));
            }
            assert(self@ =~= old(self)@.insert(namev, reg));
        }
    }

    /// The vreg the name is currently bound to, if any.
    pub fn get(&self, name: &String) -> (r: Option<IReg>)
        ensures
            r == (if self@.contains_key(name@) {
                Some(self@[name@])
            } else {
                None
            }),
    {
        let ghost s = self.entries.deep_view();
        let ghost key = name@;
        let mut idx: usize = self.entries.len();
        proof {
            assert(s.take(idx as int) =~= s);
        }
        while idx > 0
            invariant
                idx <= s.len(),
                s == self.entries.deep_view(),
                key == name@,
                spec_lookup(s, key) == spec_lookup(s.take(idx as int), key),
            decreases idx,
        {
            idx = idx - 1;
            let hit = self.entries[idx].0 == *name;
            proof {
                let t1 = s.take(idx as int + 1);
                assert(t1.last() == s[idx as int]);
                assert(t1.drop_last() =~= s.take(idx as int));
                assert(s[idx as int].0 == self.entries@[idx as int].0@);
            }
            if hit {
                proof {
                    assert(spec_lookup(s.take(idx as int + 1), key) == Some(s[idx as int].1));
                    assert(self@.contains_key(key));
                    assert(self@[key] == s[idx as int].1);
                }
                return Some(self.entries[idx].1);
            }
        }
        proof {
            assert(s.take(0) =~= Seq::<(Seq<char>, IReg)>::empty());
            assert(spec_lookup(s, key) is None);
            assert(!self@.contains_key(key));
        }
        None
    }
}

/// Global context: the blocks of the unit, by label.
#[derive(Debug)]
pub struct GlobalCtx {
    pub labels: Vec<IRBlock>,
}

/// Local context of one block: the growing op sequence, the binding
/// table, and a counter reserved for block-local label generation.
#[derive(Debug)]
pub struct LocalCtx {
    pub ops: Vec<IROp>,
    pub vtoi: Bindings,
    pub lcounter: usize,
}

impl LocalCtx {
    /// A fresh, empty context.
    pub fn new() -> (r: LocalCtx)
        ensures
            r.ops.deep_view() == Seq::<SpecIROp>::empty(),
            r.vtoi@ == Map::<Seq<char>, IReg>::empty(),
            r.lcounter == 0,
    {
        let r = LocalCtx { ops: Vec::new(), vtoi: Bindings::new(), lcounter: 0 };
        proof {
            assert(r.ops.deep_view() =~= Seq::<SpecIROp>::empty());
        }
        r
    }
}

/// One straight-line block: label, parameter types, and its context.
#[derive(Debug)]
pub struct IRBlock {
    pub label: Label,
    pub params: Vec<Type>,
    pub ctx: LocalCtx,
}

/// The character of one decimal digit.
pub open spec fn spec_digit_char(d: int) -> char {
    if d == 0 {
        '0'
    } else if d == 1 {
        '1'
    } else if d == 2 {
        '2'
    } else if d == 3 {
        '3'
    } else if d == 4 {
        '4'
    } else if d == 5 {
        '5'
    } else if d == 6 {
        '6'
    } else if d == 7 {
        '7'
    } else if d == 8 {
        '8'
    } else {
        '9'
    }
}

/// The decimal spelling of a number, most significant digit first.
pub open spec fn spec_dec_str(n: int) -> Seq<char>
    decreases n when n >= 0
{
    if n < 10 {
        seq![spec_digit_char(n)]
    } else {
        spec_dec_str(n / 10) + seq![spec_digit_char(n % 10)]
    }
}

/// The spelling of a vreg: `r` and its index.
pub open spec fn spec_reg_str(r: int) -> Seq<char> {
    "r"@ + spec_dec_str(r)
}

fn digit_str(d: u64) -> (s: &'static str)
    requires
        d < 10,
    ensures
        s@ == seq![spec_digit_char(d as int)],
{
    if d == 0 {
        proof {
            reveal_strlit("0");
            assert("0"@ =~= seq![spec_digit_char(0)]);
        }
        "0"
    } else if d == 1 {
        proof {
            reveal_strlit("1");
            assert("1"@ =~= seq![spec_digit_char(1)]);
        }
        "1"
    } else if d == 2 {
        proof {
            reveal_strlit("2");
            assert("2"@ =~= seq![spec_digit_char(2)]);
        }
        "2"
    } else if d == 3 {
        proof {
            reveal_strlit("3");
            assert("3"@ =~= seq![spec_digit_char(3)]);
        }
        "3"
    } else if d == 4 {
        proof {
            reveal_strlit("4");
            assert("4"@ =~= seq![spec_digit_char(4)]);
        }
        "4"
    } else if d == 5 {
        proof {
            reveal_strlit("5");
            assert("5"@ =~= seq![spec_digit_char(5)]);
        }
        "5"
    } else if d == 6 {
        proof {
            reveal_strlit("6");
            assert("6"@ =~= seq![spec_digit_char(6)]);
        }
        "6"
    } else if d == 7 {
        proof {
            reveal_strlit("7");
            assert("7"@ =~= seq![spec_digit_char(7)]);
        }
        "7"
    } else if d == 8 {
        proof {
            reveal_strlit("8");
            assert("8"@ =~= seq![spec_digit_char(8)]);
        }
        "8"
    } else {
        proof {
            reveal_strlit("9");
            assert("9"@ =~= seq![spec_digit_char(9)]);
        }
        "9"
    }
}

/// The decimal spelling of `n`.
fn dec_str(n: u64) -> (s: String)
    ensures
        s@ == spec_dec_str(n as int),
    decreases n,
{
    if n < 10 {
        String::from_str(digit_str(n))
    } else {
        let mut s = dec_str(n / 10);
        let d = digit_str(n % 10);
        s.append(d);
        s
    }
}

/// Spells a vreg reference: `r` and the defining op's index.
pub fn reg_to_str(reg: IReg) -> (s: String)
    ensures
        s@ == spec_reg_str(reg as int),
{
    let mut s = String::from_str("r");
    let d = dec_str(reg as u64);
    s.append(d.as_str());
    s
}

/// The spelling of an operand value.
pub open spec fn spec_irvalue_str(v: SpecIRValue) -> Seq<char> {
    match v {
        SpecIRValue::Reg(r) => spec_reg_str(r as int),
        SpecIRValue::U64(n) => spec_dec_str(n as int),
        SpecIRValue::Var(s) => s,
    }
}

impl IRValue {
    /// The operand's spelling in the dump.
    pub fn to_string(&self) -> (s: String)
        ensures
            s@ == spec_irvalue_str(self@),
    {
        match self {
            IRValue::Reg(r) => reg_to_str(*r),
            IRValue::U64(n) => dec_str(*n),
            IRValue::Var(x) => x.clone(),
        }
    }
}

/// The argument list of a `call` line: vreg references joined by
/// commas.
pub open spec fn spec_regs_join(regs: Seq<IReg>) -> Seq<char>
    decreases regs.len(),
{
    if regs.len() == 0 {
        Seq::empty()
    } else {
        spec_regs_join(regs.drop_last()) + (if regs.len() == 1 {
            Seq::<char>::empty()
        } else {
            ", "@
        }) + spec_reg_str(regs.last() as int)
    }
}

/// One line of the stable IR dump: the mnemonic, the defining op's own
/// vreg, its operands, and for `Move` and `Store` a trailing free-text
/// annotation.
pub open spec fn spec_op_triple_str(i: int, op: SpecIROp) -> Seq<char> {
    match op {
        SpecIROp::Load(val) => "ld "@ + spec_reg_str(i) + ", "@ + spec_irvalue_str(val),
        SpecIROp::Mov(r, meta) => "mov "@ + spec_reg_str(i) + ", "@ + spec_reg_str(r as int)
            + " //"@ + meta,
        SpecIROp::Store(r, meta) => "str "@ + spec_reg_str(i) + ", "@ + spec_reg_str(r as int)
            + " //"@ + meta,
        SpecIROp::Add(a, b) => "add "@ + spec_reg_str(i) + ", "@ + spec_reg_str(a as int) + ", "@
            + spec_reg_str(b as int),
        SpecIROp::Sub(a, b) => "sub "@ + spec_reg_str(i) + ", "@ + spec_reg_str(a as int) + ", "@
            + spec_reg_str(b as int),
        SpecIROp::Mul(a, b) => "mul "@ + spec_reg_str(i) + ", "@ + spec_reg_str(a as int) + ", "@
            + spec_reg_str(b as int),
        SpecIROp::Call(label, regs) => "call "@ + label + "("@ + spec_regs_join(regs) + ")"@,
    }
}

/// The short, two-operand spelling of an op, without its own vreg.
pub open spec fn spec_op_str(op: SpecIROp) -> Seq<char> {
    match op {
        SpecIROp::Load(val) => "ld "@ + spec_irvalue_str(val),
        SpecIROp::Mov(r, _) => "mov "@ + spec_reg_str(r as int),
        SpecIROp::Store(r, _) => "str "@ + spec_reg_str(r as int),
        SpecIROp::Add(a, b) => "add "@ + spec_reg_str(a as int) + " "@ + spec_reg_str(b as int),
        SpecIROp::Sub(a, b) => "sub "@ + spec_reg_str(a as int) + " "@ + spec_reg_str(b as int),
        SpecIROp::Mul(a, b) => "mul "@ + spec_reg_str(a as int) + " "@ + spec_reg_str(b as int),
        SpecIROp::Call(label, _) => "call "@ + label,
    }
}

impl IROp {
    /// The op's line in the dump, as the op at position `i`: mnemonic,
    /// `r<i>`, then the operand vregs, then any annotation.
    pub fn to_string_triple(&self, i: usize) -> (s: String)
        ensures
            s@ == spec_op_triple_str(i as int, self@),
    {
        match self {
            IROp::Mov(reg, meta) => {
                let mut s = String::from_str("mov ");
                let a = reg_to_str(i);
                s.append(a.as_str());
                s.append(", ");
                let b = reg_to_str(*reg);
                s.append(b.as_str());
                s.append(" //");
                s.append(meta.as_str());
                s
            },
            IROp::Store(reg, meta) => {
                let mut s = String::from_str("str ");
                let a = reg_to_str(i);
                s.append(a.as_str());
                s.append(", ");
                let b = reg_to_str(*reg);
                s.append(b.as_str());
                s.append(" //");
                s.append(meta.as_str());
                s
            },
            IROp::Add(r1, r2) => {
                let mut s = String::from_str("add ");
                let a = reg_to_str(i);
                s.append(a.as_str());
                s.append(", ");
                let b = reg_to_str(*r1);
                s.append(b.as_str());
                s.append(", ");
                let c = reg_to_str(*r2);
                s.append(c.as_str());
                s
            },
            IROp::Sub(r1, r2) => {
                let mut s = String::from_str("sub ");
                let a = reg_to_str(i);
                s.append(a.as_str());
                s.append(", ");
                let b = reg_to_str(*r1);
                s.append(b.as_str());
                s.append(", ");
                let c = reg_to_str(*r2);
                s.append(c.as_str());
                s
            },
            IROp::Mul(r1, r2) => {
                let mut s = String::from_str("mul ");
                let a = reg_to_str(i);
                s.append(a.as_str());
                s.append(", ");
                let b = reg_to_str(*r1);
                s.append(b.as_str());
                s.append(", ");
                let c = reg_to_str(*r2);
                s.append(c.as_str());
                s
            },
            IROp::Load(val) => {
                let mut s = String::from_str("ld ");
                let a = reg_to_str(i);
                s.append(a.as_str());
                s.append(", ");
                let b = val.to_string();
                s.append(b.as_str());
                s
            },
            IROp::Call(label, regs) => {
                let ghost lb = label@;
                let ghost regsv = regs@;
                let mut s = String::from_str("call ");
                s.append(label.as_str());
                s.append("(");
                let mut k: usize = 0;
                proof {
                    assert(regsv.take(0) =~= Seq::<IReg>::empty());
                }
                while k < regs.len()
                    invariant
                        k <= regsv.len(),
                        regsv == regs@,
                        lb == label@,
                        s@ == "call "@ + lb + "("@ + spec_regs_join(regsv.take(k as int)),
                    decreases regsv.len() - k,
                {
                    if k > 0 {
                        s.append(", ");
                    }
                    let rr = reg_to_str(regs[k]);
                    s.append(rr.as_str());
                    k = k + 1;
                    proof {
                        let t = regsv.take(k as int);
                        assert(t.drop_last() =~= regsv.take(k as int - 1));
                        assert(t.last() == regsv[k as int - 1]);
                        assert(s@ =~= "call "@ + lb + "("@ + spec_regs_join(t));
                    }
                }
                proof {
                    assert(regsv.take(regsv.len() as int) =~= regsv);
                }
                s.append(")");
                s
            },
        }
    }

    /// The op's short spelling: mnemonic and operands only.
    pub fn to_string(&self) -> (s: String)
        ensures
            s@ == spec_op_str(self@),
    {
        match self {
            IROp::Mov(reg, _) => {
                let mut s = String::from_str("mov ");
                let a = reg_to_str(*reg);
                s.append(a.as_str());
                s
            },
            IROp::Store(reg, _) => {
                let mut s = String::from_str("str ");
                let a = reg_to_str(*reg);
                s.append(a.as_str());
                s
            },
            IROp::Add(r1, r2) => {
                let mut s = String::from_str("add ");
                let a = reg_to_str(*r1);
                s.append(a.as_str());
                s.append(" ");
                let b = reg_to_str(*r2);
                s.append(b.as_str());
                s
            },
            IROp::Sub(r1, r2) => {
                let mut s = String::from_str("sub ");
                let a = reg_to_str(*r1);
                s.append(a.as_str());
                s.append(" ");
                let b = reg_to_str(*r2);
                s.append(b.as_str());
                s
            },
            IROp::Mul(r1, r2) => {
                let mut s = String::from_str("mul ");
                let a = reg_to_str(*r1);
                s.append(a.as_str());
                s.append(" ");
                let b = reg_to_str(*r2);
                s.append(b.as_str());
                s
            },
            IROp::Load(val) => {
                let mut s = String::from_str("ld ");
                let a = val.to_string();
                s.append(a.as_str());
                s
            },
            IROp::Call(label, _) => {
                let mut s = String::from_str("call ");
                s.append(label.as_str());
                s
            },
        }
    }
}

/// The first `k` lines of a block's dump, in order.
pub open spec fn spec_op_lines(ops: Seq<SpecIROp>, k: int) -> Seq<char>
    decreases k when 0 <= k
{
    if k <= 0 {
        Seq::empty()
    } else {
        spec_op_lines(ops, k - 1) + spec_op_triple_str(k - 1, ops[k - 1]) + seq!['\n']
    }
}

/// The stable dump of a block: a `block <label>` header line, then one
/// line per op, each terminated by a newline.
pub open spec fn spec_block_str(label: Seq<char>, ops: Seq<SpecIROp>) -> Seq<char> {
    "block "@ + label + seq!['\n'] + spec_op_lines(ops, ops.len() as int)
}

impl IRBlock {
    /// The block's stable textual dump.
    pub fn to_string(&self) -> (s: String)
        ensures
            s@ == spec_block_str(self.label@, self.ctx.ops.deep_view()),
    {
        let ghost opsd = self.ctx.ops.deep_view();
        let mut s = String::from_str("block ");
        s.append(self.label.as_str());
        s.append("\n");
        proof {
            reveal_strlit("\n");
            assert("\n"@ =~= seq!['\n']);
        }
        let mut k: usize = 0;
        while k < self.ctx.ops.len()
            invariant
                k <= opsd.len(),
                opsd == self.ctx.ops.deep_view(),
                s@ == "block "@ + self.label@ + seq!['\n'] + spec_op_lines(opsd, k as int),
            decreases opsd.len() - k,
        {
            let line = self.ctx.ops[k].to_string_triple(k);
            s.append(line.as_str());
            s.append("\n");
            k = k + 1;
            proof {
                reveal_strlit("\n");
                assert("\n"@ =~= seq!['\n']);
                assert(s@ =~= "block "@ + self.label@ + seq!['\n'] + spec_op_lines(
                    opsd,
                    k as int,
                ));
            }
        }
        s
    }
}

} // verus!
