//! The shift-reduce engine with its precedence gate.
//!
//! The grammar is an explicit, ordered table of rules; table order is scan
//! order and thereby the tie-break. `reduce` performs a full reduction
//! closure: it repeatedly applies the first rule whose pattern matches the
//! top of the stack and whose precedence gate lets it fire, until none does. The
//! gate compares the binding strength of the lookahead token with the
//! strength of the rule's anchor token, so a reducible binary expression is
//! left standing while tighter-binding input is still ahead. Termination is
//! proved through a potential measure over the stack that every rule of the
//! table strictly shrinks.

use vstd::prelude::*;

use crate::error::CompileError;
use crate::lexer::SpecToken;
use crate::lexer::Token;

verus! {

/// A grammar symbol: a terminal wrapping one token, or a named
/// nonterminal.
#[derive(Debug, PartialEq, Eq)]
pub enum Component {
    Tok(Token),
    Function,
    FunctionDeclaration,
    Expression,
    Exprs,
    Args,
    Declare,
    Assignment,
    Statement,
    Num,
    FunctionCall,
    Names,
    Body,
}

/// The mathematical model of a grammar symbol.
pub enum SpecComponent {
    Tok(SpecToken),
    Function,
    FunctionDeclaration,
    Expression,
    Exprs,
    Args,
    Declare,
    Assignment,
    Statement,
    Num,
    FunctionCall,
    Names,
    Body,
}

impl View for Component {
    type V = SpecComponent;

    open spec fn view(&self) -> SpecComponent {
        match self {
            Component::Tok(t) => SpecComponent::Tok(t.view()),
            Component::Function => SpecComponent::Function,
            Component::FunctionDeclaration => SpecComponent::FunctionDeclaration,
            Component::Expression => SpecComponent::Expression,
            Component::Exprs => SpecComponent::Exprs,
            Component::Args => SpecComponent::Args,
            Component::Declare => SpecComponent::Declare,
            Component::Assignment => SpecComponent::Assignment,
            Component::Statement => SpecComponent::Statement,
            Component::Num => SpecComponent::Num,
            Component::FunctionCall => SpecComponent::FunctionCall,
            Component::Names => SpecComponent::Names,
            Component::Body => SpecComponent::Body,
        }
    }
}

impl DeepView for Component {
    type V = SpecComponent;

    open spec fn deep_view(&self) -> SpecComponent {
        self.view()
    }
}

impl Clone for Component {
    /// A clone is the same symbol.
    fn clone(&self) -> (r: Self)
        ensures
            r == *self,
    {
        match self {
            Component::Tok(t) => Component::Tok(t.clone()),
            Component::Function => Component::Function,
            Component::FunctionDeclaration => Component::FunctionDeclaration,
            Component::Expression => Component::Expression,
            Component::Exprs => Component::Exprs,
            Component::Args => Component::Args,
            Component::Declare => Component::Declare,
            Component::Assignment => Component::Assignment,
            Component::Statement => Component::Statement,
            Component::Num => Component::Num,
            Component::FunctionCall => Component::FunctionCall,
            Component::Names => Component::Names,
            Component::Body => Component::Body,
        }
    }
}

/// A reduction rule: an input pattern matched against the top of the
/// stack, the output symbol replacing the matched window, and an optional
/// anchor token from which the rule's reduction precedence is computed.
#[derive(Debug)]
pub struct Rule {
    pub input: Vec<Component>,
    pub output: Component,
    pub token: Option<Token>,
}

/// The mathematical model of a rule.
#[verifier::ext_equal]
pub struct SpecRule {
    pub input: Seq<SpecComponent>,
    pub output: SpecComponent,
    pub token: Option<SpecToken>,
}

impl View for Rule {
    type V = SpecRule;

    open spec fn view(&self) -> SpecRule {
        SpecRule {
            input: self.input.deep_view(),
            output: self.output.deep_view(),
            token: self.token.deep_view(),
        }
    }
}

impl DeepView for Rule {
    type V = SpecRule;

    open spec fn deep_view(&self) -> SpecRule {
        self.view()
    }
}

/// Wildcard equality on tokens: an identifier pattern matches any
/// identifier regardless of its text; every other token matches by exact
/// kind and payload.
pub open spec fn spec_token_matches(pat: SpecToken, t: SpecToken) -> bool {
    match (pat, t) {
        (SpecToken::Name(_), SpecToken::Name(_)) => true,
        _ => pat == t,
    }
}

/// Symbol matching: terminals by token matching, nonterminals by kind.
pub open spec fn spec_component_matches(pat: SpecComponent, c: SpecComponent) -> bool {
    match (pat, c) {
        (SpecComponent::Tok(p), SpecComponent::Tok(t)) => spec_token_matches(p, t),
        (SpecComponent::Function, SpecComponent::Function) => true,
        (SpecComponent::FunctionDeclaration, SpecComponent::FunctionDeclaration) => true,
        (SpecComponent::Expression, SpecComponent::Expression) => true,
        (SpecComponent::Exprs, SpecComponent::Exprs) => true,
        (SpecComponent::Args, SpecComponent::Args) => true,
        (SpecComponent::Declare, SpecComponent::Declare) => true,
        (SpecComponent::Assignment, SpecComponent::Assignment) => true,
        (SpecComponent::Statement, SpecComponent::Statement) => true,
        (SpecComponent::Num, SpecComponent::Num) => true,
        (SpecComponent::FunctionCall, SpecComponent::FunctionCall) => true,
        (SpecComponent::Names, SpecComponent::Names) => true,
        (SpecComponent::Body, SpecComponent::Body) => true,
        _ => false,
    }
}

/// The binding strength of a token; lower binds tighter. Non-operator
/// tokens get a very large strength and so never block a reduction.
pub open spec fn spec_priotok(t: SpecToken) -> int {
    match t {
        SpecToken::Dot => 1,
        SpecToken::Inc => 1,
        SpecToken::Dec => 1,
        SpecToken::Star => 2,
        SpecToken::Slash => 2,
        SpecToken::Percent => 2,
        SpecToken::Plus => 3,
        SpecToken::Minus => 3,
        SpecToken::LeftArrow => 4,
        SpecToken::RightArrow => 4,
        SpecToken::OpenArrow => 5,
        SpecToken::CloseArrow => 5,
        SpecToken::Equ => 6,
        SpecToken::Nequ => 6,
        SpecToken::Ampersand => 7,
        SpecToken::Caret => 8,
        SpecToken::Vline => 9,
        SpecToken::LogAnd => 10,
        SpecToken::LogOr => 11,
        _ => 255,
    }
}

/// The reduction precedence of a rule: that of its anchor token, or the
/// minimum strength for an anchorless rule, which therefore always fires.
pub open spec fn spec_priorule(rule: SpecRule) -> int {
    match rule.token {
        None => 0,
        Some(t) => spec_priotok(t),
    }
}

/// The precedence gate: an anchored rule fires only when no lookahead
/// remains or the lookahead binds no tighter than the anchor.
pub open spec fn spec_gate(rule: SpecRule, lookahead: Option<SpecToken>) -> bool {
    match lookahead {
        None => true,
        Some(t) => spec_priotok(t) >= spec_priorule(rule),
    }
}

/// Whether a rule can fire on the current stack under the lookahead:
/// its pattern fits within the stack, matches the top-of-stack window,
/// and the precedence comparison allows the reduction.
pub open spec fn spec_rule_matches(
    stack: Seq<SpecComponent>,
    rule: SpecRule,
    lookahead: Option<SpecToken>,
) -> bool {
    &&& rule.input.len() <= stack.len()
    &&& (forall|k: int|
        0 <= k < rule.input.len() ==> spec_component_matches(
            #[trigger] rule.input[k],
            stack[stack.len() - rule.input.len() + k],
        ))
    &&& spec_gate(rule, lookahead)
}

/// Replaces the matched top-of-stack window with the rule's output.
pub open spec fn spec_apply(stack: Seq<SpecComponent>, rule: SpecRule) -> Seq<SpecComponent> {
    stack.take(stack.len() - rule.input.len()).push(rule.output)
}

/// The index of the first rule of the table, from position `k` on, that
/// fires on the stack.
pub open spec fn spec_first_rule(
    stack: Seq<SpecComponent>,
    rules: Seq<SpecRule>,
    lookahead: Option<SpecToken>,
    k: int,
) -> Option<int>
    decreases rules.len() - k when 0 <= k <= rules.len()
{
    if k >= rules.len() {
        None
    } else if spec_rule_matches(stack, rules[k], lookahead) {
        Some(k)
    } else {
        spec_first_rule(stack, rules, lookahead, k + 1)
    }
}

/// The termination potential of one symbol: terminals weigh most,
/// `Function` and `Statement` least, so that every rule of the table
/// strictly shrinks the stack potential.
pub open spec fn spec_pot(c: SpecComponent) -> int {
    match c {
        SpecComponent::Tok(_) => 3,
        SpecComponent::Function => 1,
        SpecComponent::Statement => 1,
        _ => 2,
    }
}

/// The potential of a whole stack: the sum of its symbols' potentials.
pub open spec fn spec_stack_pot(stack: Seq<SpecComponent>) -> int
    decreases stack.len(),
{
    if stack.len() == 0 {
        0
    } else {
        spec_stack_pot(stack.drop_last()) + spec_pot(stack.last())
    }
}

/// A rule that replaces a nonempty window with an output of strictly
/// smaller potential. Every rule of a well-formed table is of this form;
/// it is what makes the reduction closure terminate.
pub open spec fn spec_rule_decreasing(rule: SpecRule) -> bool {
    rule.input.len() >= 1 && spec_stack_pot(rule.input) > spec_pot(rule.output)
}

/// A well-formed rule table: every rule shrinks the potential.
pub open spec fn spec_rules_wf(rules: Seq<SpecRule>) -> bool {
    forall|k: int| 0 <= k < rules.len() ==> spec_rule_decreasing(#[trigger] rules[k])
}

proof fn lemma_stack_pot_nonneg(stack: Seq<SpecComponent>)
    ensures
        spec_stack_pot(stack) >= 0,
    decreases stack.len(),
{
    if stack.len() > 0 {
        lemma_stack_pot_nonneg(stack.drop_last());
    }
}

proof fn lemma_pot_matches(pat: SpecComponent, c: SpecComponent)
    requires
        spec_component_matches(pat, c),
    ensures
        spec_pot(pat) == spec_pot(c),
{
}

proof fn lemma_stack_pot_congruent(a: Seq<SpecComponent>, b: Seq<SpecComponent>)
    requires
        a.len() == b.len(),
        forall|k: int| 0 <= k < a.len() ==> spec_pot(#[trigger] a[k]) == spec_pot(b[k]),
    ensures
        spec_stack_pot(a) == spec_stack_pot(b),
    decreases a.len(),
{
    if a.len() > 0 {
        assert(a.drop_last().len() == b.drop_last().len());
        assert forall|k: int| 0 <= k < a.drop_last().len() implies spec_pot(
            #[trigger] a.drop_last()[k],
        ) == spec_pot(b.drop_last()[k]) by {
            assert(a.drop_last()[k] == a[k]);
            assert(b.drop_last()[k] == b[k]);
        }
        lemma_stack_pot_congruent(a.drop_last(), b.drop_last());
        assert(a.last() == a[a.len() - 1]);
        assert(b.last() == b[b.len() - 1]);
    }
}

proof fn lemma_stack_pot_split(s: Seq<SpecComponent>, k: int)
    requires
        0 <= k <= s.len(),
    ensures
        spec_stack_pot(s) == spec_stack_pot(s.take(k)) + spec_stack_pot(s.subrange(k, s.len() as int)),
    decreases s.len() - k,
{
    if k == s.len() {
        assert(s.take(k) =~= s);
        assert(s.subrange(k, s.len() as int) =~= Seq::<SpecComponent>::empty());
        assert(spec_stack_pot(Seq::<SpecComponent>::empty()) == 0);
    } else {
        lemma_stack_pot_split_helper(s, k);
    }
}

proof fn lemma_stack_pot_split_helper(s: Seq<SpecComponent>, k: int)
    requires
        0 <= k < s.len(),
    ensures
        spec_stack_pot(s) == spec_stack_pot(s.take(k)) + spec_stack_pot(s.subrange(k, s.len() as int)),
    decreases s.len() - k,
{
    let s0 = s.drop_last();
    if k == s0.len() {
        assert(s.take(k) =~= s0);
        let tail = s.subrange(k, s.len() as int);
        assert(tail.len() == 1);
        assert(tail.drop_last() =~= Seq::<SpecComponent>::empty());
        assert(tail.last() == s.last());
        assert(spec_stack_pot(Seq::<SpecComponent>::empty()) == 0);
        assert(spec_stack_pot(tail.drop_last()) == 0);
        assert(spec_stack_pot(tail) == spec_pot(s.last()));
    } else {
        lemma_stack_pot_split_helper(s0, k);
        assert(s0.take(k) =~= s.take(k));
        let tail = s.subrange(k, s.len() as int);
        let tail0 = s0.subrange(k, s0.len() as int);
        assert(tail.drop_last() =~= tail0);
        assert(tail.last() == s.last());
        assert(spec_stack_pot(tail) == spec_stack_pot(tail0) + spec_pot(s.last()));
    }
}

/// Applying a decreasing rule to a matching stack strictly shrinks the
/// stack potential.
proof fn lemma_apply_decreases(
    stack: Seq<SpecComponent>,
    rule: SpecRule,
    lookahead: Option<SpecToken>,
)
    requires
        spec_rule_matches(stack, rule, lookahead),
        spec_rule_decreasing(rule),
    ensures
        spec_stack_pot(spec_apply(stack, rule)) < spec_stack_pot(stack),
{
    let base = stack.len() - rule.input.len();
    let window = stack.subrange(base, stack.len() as int);
    lemma_stack_pot_split(stack, base);
    assert forall|k: int| 0 <= k < rule.input.len() implies spec_pot(#[trigger] rule.input[k])
        == spec_pot(window[k]) by {
        assert(window[k] == stack[base + k]);
        lemma_pot_matches(rule.input[k], stack[base + k]);
    }
    lemma_stack_pot_congruent(rule.input, window);
    let applied = spec_apply(stack, rule);
    assert(applied.drop_last() =~= stack.take(base));
    assert(applied.last() == rule.output);
    assert(spec_stack_pot(applied) == spec_stack_pot(stack.take(base)) + spec_pot(rule.output));
}

/// Properties of the first-matching-rule scan.
proof fn lemma_first_rule(
    stack: Seq<SpecComponent>,
    rules: Seq<SpecRule>,
    lookahead: Option<SpecToken>,
    k: int,
)
    requires
        0 <= k <= rules.len(),
    ensures
        match spec_first_rule(stack, rules, lookahead, k) {
            Some(idx) => k <= idx < rules.len() && spec_rule_matches(stack, rules[idx], lookahead),
            None => forall|j: int|
                k <= j < rules.len() ==> !spec_rule_matches(stack, #[trigger] rules[j], lookahead),
        },
    decreases rules.len() - k,
{
    if k < rules.len() && !spec_rule_matches(stack, rules[k], lookahead) {
        lemma_first_rule(stack, rules, lookahead, k + 1);
    }
}

/// Scanning from `a` equals scanning from `b` when no rule in between
/// fires.
proof fn lemma_first_rule_skip(
    stack: Seq<SpecComponent>,
    rules: Seq<SpecRule>,
    lookahead: Option<SpecToken>,
    a: int,
    b: int,
)
    requires
        0 <= a <= b <= rules.len(),
        forall|j: int| a <= j < b ==> !spec_rule_matches(stack, #[trigger] rules[j], lookahead),
    ensures
        spec_first_rule(stack, rules, lookahead, a) == spec_first_rule(stack, rules, lookahead, b),
    decreases b - a,
{
    if a < b {
        lemma_first_rule_skip(stack, rules, lookahead, a + 1, b);
    }
}

/// The reduction closure: applies the first firing rule and restarts the
/// scan, until no rule of the table fires.
pub open spec fn spec_reduce(
    stack: Seq<SpecComponent>,
    rules: Seq<SpecRule>,
    lookahead: Option<SpecToken>,
) -> Seq<SpecComponent>
    decreases spec_stack_pot(stack) when spec_rules_wf(rules) via spec_reduce_decreases
{
    match spec_first_rule(stack, rules, lookahead, 0) {
        None => stack,
        Some(idx) => spec_reduce(spec_apply(stack, rules[idx]), rules, lookahead),
    }
}

#[via_fn]
proof fn spec_reduce_decreases(
    stack: Seq<SpecComponent>,
    rules: Seq<SpecRule>,
    lookahead: Option<SpecToken>,
) {
    lemma_stack_pot_nonneg(stack);
    lemma_first_rule(stack, rules, lookahead, 0);
    match spec_first_rule(stack, rules, lookahead, 0) {
        None => {},
        Some(idx) => {
            lemma_apply_decreases(stack, rules[idx], lookahead);
            lemma_stack_pot_nonneg(spec_apply(stack, rules[idx]));
        },
    }
}

/// Wildcard equality on tokens, executable form.
fn token_matches(pat: &Token, t: &Token) -> (r: bool)
    ensures
        r == spec_token_matches(pat@, t@),
{
    match (pat, t) {
        (Token::Name(_), Token::Name(_)) => true,
        (Token::Number(a), Token::Number(b)) => a == b,
        (Token::Keywords(a), Token::Keywords(b)) => a == b,
        (Token::Assign, Token::Assign) => true,
        (Token::Declaration, Token::Declaration) => true,
        (Token::At, Token::At) => true,
        (Token::Lattice, Token::Lattice) => true,
        (Token::Plus, Token::Plus) => true,
        (Token::Minus, Token::Minus) => true,
        (Token::Star, Token::Star) => true,
        (Token::Slash, Token::Slash) => true,
        (Token::Percent, Token::Percent) => true,
        (Token::Backslash, Token::Backslash) => true,
        (Token::Ampersand, Token::Ampersand) => true,
        (Token::Caret, Token::Caret) => true,
        (Token::Vline, Token::Vline) => true,
        (Token::Epoint, Token::Epoint) => true,
        (Token::LogAnd, Token::LogAnd) => true,
        (Token::LogOr, Token::LogOr) => true,
        (Token::Equ, Token::Equ) => true,
        (Token::Nequ, Token::Nequ) => true,
        (Token::OpenParen, Token::OpenParen) => true,
        (Token::CloseParen, Token::CloseParen) => true,
        (Token::OpenBracket, Token::OpenBracket) => true,
        (Token::CloseBracket, Token::CloseBracket) => true,
        (Token::OpenCurly, Token::OpenCurly) => true,
        (Token::CloseCurly, Token::CloseCurly) => true,
        (Token::OpenArrow, Token::OpenArrow) => true,
        (Token::CloseArrow, Token::CloseArrow) => true,
        (Token::LeftArrow, Token::LeftArrow) => true,
        (Token::RightArrow, Token::RightArrow) => true,
        (Token::Inc, Token::Inc) => true,
        (Token::Dec, Token::Dec) => true,
        (Token::Dot, Token::Dot) => true,
        (Token::Comma, Token::Comma) => true,
        (Token::End, Token::End) => true,
        _ => false,
    }
}

/// Symbol matching, executable form.
fn component_matches(pat: &Component, c: &Component) -> (r: bool)
    ensures
        r == spec_component_matches(pat@, c@),
{
    match (pat, c) {
        (Component::Tok(p), Component::Tok(t)) => token_matches(p, t),
        (Component::Function, Component::Function) => true,
        (Component::FunctionDeclaration, Component::FunctionDeclaration) => true,
        (Component::Expression, Component::Expression) => true,
        (Component::Exprs, Component::Exprs) => true,
        (Component::Args, Component::Args) => true,
        (Component::Declare, Component::Declare) => true,
        (Component::Assignment, Component::Assignment) => true,
        (Component::Statement, Component::Statement) => true,
        (Component::Num, Component::Num) => true,
        (Component::FunctionCall, Component::FunctionCall) => true,
        (Component::Names, Component::Names) => true,
        (Component::Body, Component::Body) => true,
        _ => false,
    }
}

/// The binding strength of a token, executable form.
pub fn priotok(tok: &Token) -> (r: u8)
    ensures
        r as int == spec_priotok(tok@),
{
    match tok {
        Token::Dot => 1,
        Token::Inc => 1,
        Token::Dec => 1,
        Token::Star => 2,
        Token::Slash => 2,
        Token::Percent => 2,
        Token::Plus => 3,
        Token::Minus => 3,
        Token::LeftArrow => 4,
        Token::RightArrow => 4,
        Token::OpenArrow => 5,
        Token::CloseArrow => 5,
        Token::Equ => 6,
        Token::Nequ => 6,
        Token::Ampersand => 7,
        Token::Caret => 8,
        Token::Vline => 9,
        Token::LogAnd => 10,
        Token::LogOr => 11,
        _ => 255,
    }
}

/// The reduction precedence of a rule, executable form.
pub fn priorule(rule: &Rule) -> (r: u8)
    ensures
        r as int == spec_priorule(rule@),
{
    match &rule.token {
        None => 0,
        Some(tok) => priotok(tok),
    }
}

/// Whether the pattern matches the top-of-stack window of its own
/// length, symbol by symbol.
fn equal(stack: &Vec<Component>, pattern: &Vec<Component>) -> (r: bool)
    requires
        pattern@.len() <= stack@.len(),
    ensures
        r == (forall|j: int|
            0 <= j < pattern@.len() ==> spec_component_matches(
                #[trigger] pattern.deep_view()[j],
                stack.deep_view()[stack@.len() - pattern@.len() + j],
            )),
{
    let rlen = pattern.len();
    let base = stack.len() - rlen;
    let mut k: usize = 0;
    while k < rlen
        invariant
            0 <= k <= rlen,
            rlen == pattern@.len(),
            rlen <= stack@.len(),
            stack@.len() <= usize::MAX,
            base == stack@.len() - rlen,
            forall|j: int|
                0 <= j < k ==> spec_component_matches(
                    #[trigger] pattern.deep_view()[j],
                    stack.deep_view()[base + j],
                ),
        decreases rlen - k,
    {
        if !component_matches(&pattern[k], &stack[base + k]) {
            proof {
                assert(!spec_component_matches(
                    pattern.deep_view()[k as int],
                    stack.deep_view()[base as int + k as int],
                ));
            }
            return false;
        }
        k = k + 1;
    }
    true
}

/// Whether the rule fires on the stack under the lookahead.
fn rule_matches(stack: &Vec<Component>, rule: &Rule, lookahead: &Option<Token>) -> (r: bool)
    ensures
        r == spec_rule_matches(stack.deep_view(), rule@, lookahead.deep_view()),
{
    let rlen = rule.input.len();
    if rlen > stack.len() {
        return false;
    }
    let gate = match lookahead {
        None => true,
        Some(tok) => priotok(tok) >= priorule(rule),
    };
    if !gate {
        return false;
    }
    equal(stack, &rule.input)
}

/// The index of the first rule of the table that fires, scanning in
/// table order.
fn find_rule(stack: &Vec<Component>, rules: &Vec<Rule>, lookahead: &Option<Token>) -> (r: Option<
    usize,
>)
    ensures
        match r {
            Some(idx) => idx < rules@.len() && spec_first_rule(
                stack.deep_view(),
                rules.deep_view(),
                lookahead.deep_view(),
                0,
            ) == Some(idx as int),
            None => spec_first_rule(
                stack.deep_view(),
                rules.deep_view(),
                lookahead.deep_view(),
                0,
            ) is None,
        },
{
    let ghost sv = stack.deep_view();
    let ghost rv = rules.deep_view();
    let ghost la = lookahead.deep_view();
    let mut k: usize = 0;
    while k < rules.len()
        invariant
            0 <= k <= rules@.len(),
            sv == stack.deep_view(),
            rv == rules.deep_view(),
            la == lookahead.deep_view(),
            forall|j: int| 0 <= j < k ==> !spec_rule_matches(sv, #[trigger] rv[j], la),
        decreases rules@.len() - k,
    {
        if rule_matches(stack, &rules[k], lookahead) {
            proof {
                lemma_first_rule_skip(sv, rv, la, 0, k as int);
            }
            return Some(k);
        }
        k = k + 1;
    }
    proof {
        lemma_first_rule_skip(sv, rv, la, 0, rules@.len() as int);
    }
    None
}

/// One full reduction closure over the parse stack: applies the first
/// firing rule of the table and restarts the scan from rule zero, until
/// no rule fires. The result is exactly `spec_reduce` of the incoming
/// stack, and the potential measure proves the closure terminates on
/// every finite stack.
pub fn reduce(stack: &mut Vec<Component>, rules: &Vec<Rule>, nexttoken: &Option<Token>)
    requires
        spec_rules_wf(rules.deep_view()),
    ensures
        final(stack).deep_view() == spec_reduce(
            old(stack).deep_view(),
            rules.deep_view(),
            nexttoken.deep_view(),
        ),
{
    let ghost rv = rules.deep_view();
    let ghost la = nexttoken.deep_view();
    loop
        invariant
            spec_rules_wf(rv),
            rv == rules.deep_view(),
            la == nexttoken.deep_view(),
            spec_reduce(old(stack).deep_view(), rv, la) == spec_reduce(stack.deep_view(), rv, la),
        decreases spec_stack_pot(stack.deep_view()),
    {
        proof {
            lemma_stack_pot_nonneg(stack.deep_view());
        }
        match find_rule(stack, rules, nexttoken) {
            None => {
                proof {
                    assert(spec_reduce(stack.deep_view(), rv, la) == stack.deep_view());
                }
                return ;
            },
            Some(idx) => {
                let ghost pre = stack.deep_view();
                proof {
                    lemma_first_rule(pre, rv, la, 0);
                    assert(spec_rule_matches(pre, rv[idx as int], la));
                    assert(spec_reduce(pre, rv, la) == spec_reduce(
                        spec_apply(pre, rv[idx as int]),
                        rv,
                        la,
                    ));
                    lemma_apply_decreases(pre, rv[idx as int], la);
                }
                let rule = &rules[idx];
                let rlen = rule.input.len();
                let newlen = stack.len() - rlen;
                let out = rule.output.clone();
                stack.truncate(newlen);
                stack.push(out);
                proof {
                    assert(stack.deep_view() =~= spec_apply(pre, rv[idx as int]));
                    assert(spec_stack_pot(stack.deep_view()) < spec_stack_pot(pre));
                    lemma_stack_pot_nonneg(stack.deep_view());
                }
            },
        }
    }
}

/// The grammar: a parenthesized expression collapses, binary `+`, `-`
/// and `*` over expressions reduce under their own anchor, a lone
/// identifier is promoted to an expression, and a declaration becomes a
/// statement. Table order is priority order.
pub open spec fn spec_grammar() -> Seq<SpecRule> {
    seq![
        SpecRule {
            input: seq![
                SpecComponent::Tok(SpecToken::OpenParen),
                SpecComponent::Expression,
                SpecComponent::Tok(SpecToken::CloseParen),
            ],
            output: SpecComponent::Expression,
            token: None,
        },
        SpecRule {
            input: seq![
                SpecComponent::Expression,
                SpecComponent::Tok(SpecToken::Plus),
                SpecComponent::Expression,
            ],
            output: SpecComponent::Expression,
            token: Some(SpecToken::Plus),
        },
        SpecRule {
            input: seq![
                SpecComponent::Expression,
                SpecComponent::Tok(SpecToken::Minus),
                SpecComponent::Expression,
            ],
            output: SpecComponent::Expression,
            token: Some(SpecToken::Minus),
        },
        SpecRule {
            input: seq![
                SpecComponent::Expression,
                SpecComponent::Tok(SpecToken::Star),
                SpecComponent::Expression,
            ],
            output: SpecComponent::Expression,
            token: Some(SpecToken::Star),
        },
        SpecRule {
            input: seq![SpecComponent::Tok(SpecToken::Name(None))],
            output: SpecComponent::Expression,
            token: None,
        },
        SpecRule {
            input: seq![
                SpecComponent::Tok(SpecToken::Name(None)),
                SpecComponent::Tok(SpecToken::Declaration),
                SpecComponent::Expression,
            ],
            output: SpecComponent::Declare,
            token: Some(SpecToken::Declaration),
        },
        SpecRule {
            input: seq![SpecComponent::Declare],
            output: SpecComponent::Statement,
            token: None,
        },
    ]
}

proof fn lemma_pot_one(a: SpecComponent)
    ensures
        spec_stack_pot(seq![a]) == spec_pot(a),
{
    let s = seq![a];
    assert(s.drop_last() =~= Seq::<SpecComponent>::empty());
    assert(spec_stack_pot(Seq::<SpecComponent>::empty()) == 0);
    assert(s.last() == a);
}

proof fn lemma_pot_three(a: SpecComponent, b: SpecComponent, c: SpecComponent)
    ensures
        spec_stack_pot(seq![a, b, c]) == spec_pot(a) + spec_pot(b) + spec_pot(c),
{
    let s = seq![a, b, c];
    let s2 = seq![a, b];
    assert(s.drop_last() =~= s2);
    assert(s.last() == c);
    assert(s2.drop_last() =~= seq![a]);
    assert(s2.last() == b);
    lemma_pot_one(a);
    assert(spec_stack_pot(s2) == spec_stack_pot(s2.drop_last()) + spec_pot(b));
    assert(spec_stack_pot(s2) == spec_pot(a) + spec_pot(b));
    assert(spec_stack_pot(s) == spec_stack_pot(s.drop_last()) + spec_pot(c));
}

/// Every rule of the grammar strictly shrinks the stack potential, so
/// every reduction closure over it terminates.
pub proof fn lemma_grammar_wf()
    ensures
        spec_rules_wf(spec_grammar()),
{
    let g = spec_grammar();
    assert(spec_rule_decreasing(g[0])) by {
        lemma_pot_three(g[0].input[0], g[0].input[1], g[0].input[2]);
        assert(g[0].input =~= seq![g[0].input[0], g[0].input[1], g[0].input[2]]);
    }
    assert(spec_rule_decreasing(g[1])) by {
        lemma_pot_three(g[1].input[0], g[1].input[1], g[1].input[2]);
        assert(g[1].input =~= seq![g[1].input[0], g[1].input[1], g[1].input[2]]);
    }
    assert(spec_rule_decreasing(g[2])) by {
        lemma_pot_three(g[2].input[0], g[2].input[1], g[2].input[2]);
        assert(g[2].input =~= seq![g[2].input[0], g[2].input[1], g[2].input[2]]);
    }
    assert(spec_rule_decreasing(g[3])) by {
        lemma_pot_three(g[3].input[0], g[3].input[1], g[3].input[2]);
        assert(g[3].input =~= seq![g[3].input[0], g[3].input[1], g[3].input[2]]);
    }
    assert(spec_rule_decreasing(g[4])) by {
        lemma_pot_one(g[4].input[0]);
        assert(g[4].input =~= seq![g[4].input[0]]);
    }
    assert(spec_rule_decreasing(g[5])) by {
        lemma_pot_three(g[5].input[0], g[5].input[1], g[5].input[2]);
        assert(g[5].input =~= seq![g[5].input[0], g[5].input[1], g[5].input[2]]);
    }
    assert(spec_rule_decreasing(g[6])) by {
        lemma_pot_one(g[6].input[0]);
        assert(g[6].input =~= seq![g[6].input[0]]);
    }
    assert forall|k: int| 0 <= k < g.len() implies spec_rule_decreasing(#[trigger] g[k]) by {}
}

/// Builds the grammar table. The table is explicit data handed to the
/// reducer at call time; nothing in the crate holds it as global state.
pub fn grammar_rules() -> (rules: Vec<Rule>)
    ensures
        rules.deep_view() == spec_grammar(),
        spec_rules_wf(rules.deep_view()),
{
    let mut rules: Vec<Rule> = Vec::new();

    let mut in0: Vec<Component> = Vec::new();
    in0.push(Component::Tok(Token::OpenParen));
    in0.push(Component::Expression);
    in0.push(Component::Tok(Token::CloseParen));
    rules.push(Rule { input: in0, output: Component::Expression, token: None });

    let mut in1: Vec<Component> = Vec::new();
    in1.push(Component::Expression);
    in1.push(Component::Tok(Token::Plus));
    in1.push(Component::Expression);
    rules.push(Rule { input: in1, output: Component::Expression, token: Some(Token::Plus) });

    let mut in2: Vec<Component> = Vec::new();
    in2.push(Component::Expression);
    in2.push(Component::Tok(Token::Minus));
    in2.push(Component::Expression);
    rules.push(Rule { input: in2, output: Component::Expression, token: Some(Token::Minus) });

    let mut in3: Vec<Component> = Vec::new();
    in3.push(Component::Expression);
    in3.push(Component::Tok(Token::Star));
    in3.push(Component::Expression);
    rules.push(Rule { input: in3, output: Component::Expression, token: Some(Token::Star) });

    let mut in4: Vec<Component> = Vec::new();
    in4.push(Component::Tok(Token::Name(None)));
    rules.push(Rule { input: in4, output: Component::Expression, token: None });

    let mut in5: Vec<Component> = Vec::new();
    in5.push(Component::Tok(Token::Name(None)));
    in5.push(Component::Tok(Token::Declaration));
    in5.push(Component::Expression);
    rules.push(Rule { input: in5, output: Component::Declare, token: Some(Token::Declaration) });

    let mut in6: Vec<Component> = Vec::new();
    in6.push(Component::Declare);
    rules.push(Rule { input: in6, output: Component::Statement, token: None });

    proof {
        let rv = rules.deep_view();
        let gv = spec_grammar();
        assert(rv.len() == 7);
        assert(rv[0].input =~= gv[0].input);
        assert(rv[1].input =~= gv[1].input);
        assert(rv[2].input =~= gv[2].input);
        assert(rv[3].input =~= gv[3].input);
        assert(rv[4].input =~= gv[4].input);
        assert(rv[5].input =~= gv[5].input);
        assert(rv[6].input =~= gv[6].input);
        assert(rv[0] =~= gv[0]);
        assert(rv[1] =~= gv[1]);
        assert(rv[2] =~= gv[2]);
        assert(rv[3] =~= gv[3]);
        assert(rv[4] =~= gv[4]);
        assert(rv[5] =~= gv[5]);
        assert(rv[6] =~= gv[6]);
        assert(rv =~= gv);
        lemma_grammar_wf();
    }
    rules
}

/// The model of `parse`: shift each token onto the stack as a terminal
/// and run the reduction closure, with the next token as lookahead while
/// one remains and with none for the final forced reduction.
pub open spec fn spec_parse_from(
    toks: Seq<SpecToken>,
    k: int,
    stack: Seq<SpecComponent>,
) -> Seq<SpecComponent>
    decreases toks.len() - k when 0 <= k <= toks.len()
{
    if k >= toks.len() {
        stack
    } else {
        let lookahead = if k + 1 < toks.len() {
            Some(toks[k + 1])
        } else {
            None
        };
        spec_parse_from(
            toks,
            k + 1,
            spec_reduce(stack.push(SpecComponent::Tok(toks[k])), spec_grammar(), lookahead),
        )
    }
}

/// What the whole token stream parses to.
pub open spec fn spec_parse(toks: Seq<SpecToken>) -> Seq<SpecComponent> {
    spec_parse_from(toks, 0, Seq::empty())
}

/// Runs the shift-reduce engine over the whole token stream and returns
/// the reduced symbol stack, exactly as `spec_parse` models it. Always
/// returns; an empty input yields an empty stack.
pub fn parse(tokens: Vec<Token>) -> (stack: Vec<Component>)
    ensures
        stack.deep_view() == spec_parse(tokens.deep_view()),
{
    let rules = grammar_rules();
    let mut stack: Vec<Component> = Vec::new();
    let n = tokens.len();
    let mut k: usize = 0;
    proof {
        assert(stack.deep_view() =~= Seq::<SpecComponent>::empty());
    }
    while k < n
        invariant
            0 <= k <= n,
            n == tokens@.len(),
            rules.deep_view() == spec_grammar(),
            spec_rules_wf(rules.deep_view()),
            spec_parse(tokens.deep_view()) == spec_parse_from(
                tokens.deep_view(),
                k as int,
                stack.deep_view(),
            ),
        decreases n - k,
    {
        let t = tokens[k].clone();
        let lookahead: Option<Token> = if k + 1 < n {
            Some(tokens[k + 1].clone())
        } else {
            None
        };
        let ghost pre = stack.deep_view();
        let ghost tv = tokens.deep_view();
        stack.push(Component::Tok(t));
        proof {
            assert(stack.deep_view() =~= pre.push(SpecComponent::Tok(tv[k as int])));
            assert(lookahead.deep_view() == (if k as int + 1 < tv.len() {
                Some(tv[k as int + 1])
            } else {
                None
            }));
        }
        reduce(&mut stack, &rules, &lookahead);
        k = k + 1;
    }
    stack
}

/// One reduced top-level construct: a single nonterminal on the stack.
pub open spec fn spec_single_construct(stack: Seq<SpecComponent>) -> bool {
    stack.len() == 1 && !(stack[0] is Tok)
}

/// Parses and then demands that the forced final reduction left exactly
/// one top-level construct; anything else is a `SyntaxError` carrying
/// the residual stack.
pub fn parse_program(tokens: Vec<Token>) -> (r: Result<Vec<Component>, CompileError>)
    ensures
        match r {
            Ok(stack) => stack.deep_view() == spec_parse(tokens.deep_view())
                && spec_single_construct(stack.deep_view()),
            Err(e) => match e {
                CompileError::SyntaxError { residual } => residual.deep_view() == spec_parse(
                    tokens.deep_view(),
                ) && !spec_single_construct(residual.deep_view()),
                _ => false,
            },
        },
{
    let stack = parse(tokens);
    let single = stack.len() == 1 && match &stack[0] {
        Component::Tok(_) => false,
        _ => true,
    };
    if single {
        Ok(stack)
    } else {
        Err(CompileError::SyntaxError { residual: stack })
    }
}

/// The precedence-gate law: while the incoming operator binds tighter
/// than the one already on the stack, the reducible expression under the
/// weaker operator is left standing, so the tighter subexpression is
/// built first. With `E1 op1 E2` on top of the stack and a lookahead
/// `op2` of strictly smaller strength, the closure changes nothing.
pub proof fn lemma_precedence_gate(stack: Seq<SpecComponent>, op1: SpecToken, op2: SpecToken)
    requires
        stack.len() >= 3,
        stack[stack.len() - 3] == SpecComponent::Expression,
        stack[stack.len() - 2] == SpecComponent::Tok(op1),
        stack[stack.len() - 1] == SpecComponent::Expression,
        spec_priotok(op2) < spec_priotok(op1),
    ensures
        spec_reduce(stack, spec_grammar(), Some(op2)) == stack,
{
    let g = spec_grammar();
    lemma_grammar_wf();
    assert forall|j: int| 0 <= j < g.len() implies !spec_rule_matches(
        stack,
        #[trigger] g[j],
        Some(op2),
    ) by {
        let rule = g[j];
        let base = stack.len() - rule.input.len();
        if j == 0 {
            assert(!spec_component_matches(rule.input[0], stack[base + 0]));
        } else if j == 1 || j == 2 || j == 3 {
            if spec_component_matches(rule.input[1], stack[base + 1]) {
                assert(stack[base + 1] == SpecComponent::Tok(op1));
                assert(rule.input[1] is Tok);
                assert(spec_priorule(rule) == spec_priotok(op1));
                assert(!spec_gate(rule, Some(op2)));
            }
        } else if j == 4 {
            assert(!spec_component_matches(rule.input[0], stack[base + 0]));
        } else if j == 5 {
            assert(!spec_component_matches(rule.input[0], stack[base + 0]));
        } else {
            assert(j == 6);
            assert(!spec_component_matches(rule.input[0], stack[base + 0]));
        }
    }
    lemma_first_rule_skip(stack, g, Some(op2), 0, g.len() as int);
    assert(spec_first_rule(stack, g, Some(op2), 0) is None);
}

} // verus!
