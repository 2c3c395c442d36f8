//! Renaming of spliced helper bodies: every binding gets a number of its own,
//! names that nothing binds stay, and nothing but names changes.
use crate::emission::{fresh_name, renamed, renamed_fields, renamed_list};
use crate::expr::{AssertV, ExprV};
use vstd::prelude::*;

verus! {

// ---- the names of an expression

/// The names that an expression's bindings give, in the order of evaluation.
pub open spec fn bound(e: ExprV) -> Seq<Seq<char>>
    decreases e, 0nat,
{
    match e {
        ExprV::LedgerAccess { args, .. } => bound_list(args, args.len()),
        ExprV::WitnessCall { args, .. } => bound_list(args, args.len()),
        ExprV::FnCall { args, .. } => bound_list(args, args.len()),
        ExprV::MethodCall { receiver, args, .. } => bound(*receiver) + bound_list(args, args.len()),
        ExprV::BinaryOp { lhs, rhs, .. } => bound(*lhs) + bound(*rhs),
        ExprV::UnaryOp { expr, .. } => bound(*expr),
        ExprV::Reference { expr, .. } => bound(*expr),
        ExprV::Disclose { value, .. } => bound(*value),
        ExprV::Block { stmts, .. } => bound_list(stmts, stmts.len()),
        ExprV::EnumPayload { scrutinee, .. } => bound(*scrutinee),
        ExprV::Index { array, .. } => bound(*array),
        ExprV::Tuple { elements, .. } => bound_list(elements, elements.len()),
        ExprV::ArrayLit { elements, .. } => bound_list(elements, elements.len()),
        ExprV::StructInit { fields, .. } => bound_fields(fields, fields.len()),
        ExprV::Let { name, value, .. } => bound(*value).push(name),
        ExprV::Assert { kind, .. } => match kind {
            AssertV::Assert(c) => bound(*c),
            AssertV::AssertEq(l, r) => bound(*l) + bound(*r),
        },
        ExprV::If { cond, then_branch, else_branch, .. } => {
            let first = bound(*cond) + bound_list(then_branch, then_branch.len());
            match else_branch {
                Some(b) => first + bound_list(b, b.len()),
                None => first,
            }
        }
        ExprV::Return { value, .. } => match value {
            Some(v) => bound(*v),
            None => seq![],
        },
        _ => seq![],
    }
}

pub open spec fn bound_list(es: Seq<ExprV>, n: nat) -> Seq<Seq<char>>
    decreases es, n,
{
    if n == 0 || n > es.len() {
        seq![]
    } else {
        bound_list(es, (n - 1) as nat) + bound(es[n - 1])
    }
}

pub open spec fn bound_fields(fs: Seq<(Seq<char>, ExprV)>, n: nat) -> Seq<Seq<char>>
    decreases fs, n,
{
    if n == 0 || n > fs.len() {
        seq![]
    } else {
        bound_fields(fs, (n - 1) as nat) + bound(fs[n - 1].1)
    }
}

/// The variables that an expression reads, in the order of evaluation.
pub open spec fn used(e: ExprV) -> Seq<Seq<char>>
    decreases e, 0nat,
{
    match e {
        ExprV::LedgerAccess { args, .. } => used_list(args, args.len()),
        ExprV::WitnessCall { args, .. } => used_list(args, args.len()),
        ExprV::FnCall { args, .. } => used_list(args, args.len()),
        ExprV::MethodCall { receiver, args, .. } => used(*receiver) + used_list(args, args.len()),
        ExprV::BinaryOp { lhs, rhs, .. } => used(*lhs) + used(*rhs),
        ExprV::UnaryOp { expr, .. } => used(*expr),
        ExprV::Reference { expr, .. } => used(*expr),
        ExprV::Disclose { value, .. } => used(*value),
        ExprV::Block { stmts, .. } => used_list(stmts, stmts.len()),
        ExprV::EnumPayload { scrutinee, .. } => used(*scrutinee),
        ExprV::Index { array, .. } => used(*array),
        ExprV::Tuple { elements, .. } => used_list(elements, elements.len()),
        ExprV::ArrayLit { elements, .. } => used_list(elements, elements.len()),
        ExprV::StructInit { fields, .. } => used_fields(fields, fields.len()),
        ExprV::Var { name, .. } => seq![name],
        ExprV::Let { value, .. } => used(*value),
        ExprV::Assert { kind, .. } => match kind {
            AssertV::Assert(c) => used(*c),
            AssertV::AssertEq(l, r) => used(*l) + used(*r),
        },
        ExprV::If { cond, then_branch, else_branch, .. } => {
            let first = used(*cond) + used_list(then_branch, then_branch.len());
            match else_branch {
                Some(b) => first + used_list(b, b.len()),
                None => first,
            }
        }
        ExprV::Return { value, .. } => match value {
            Some(v) => used(*v),
            None => seq![],
        },
        _ => seq![],
    }
}

pub open spec fn used_list(es: Seq<ExprV>, n: nat) -> Seq<Seq<char>>
    decreases es, n,
{
    if n == 0 || n > es.len() {
        seq![]
    } else {
        used_list(es, (n - 1) as nat) + used(es[n - 1])
    }
}

pub open spec fn used_fields(fs: Seq<(Seq<char>, ExprV)>, n: nat) -> Seq<Seq<char>>
    decreases fs, n,
{
    if n == 0 || n > fs.len() {
        seq![]
    } else {
        used_fields(fs, (n - 1) as nat) + used(fs[n - 1].1)
    }
}

/// The expression without the names of its variables and bindings.
pub open spec fn nameless(e: ExprV) -> ExprV
    decreases e, 0nat,
{
    match e {
        ExprV::LedgerAccess { span, field, method, args } => ExprV::LedgerAccess { span, field, method, args: nameless_list(args, args.len()) },
        ExprV::WitnessCall { span, name, args } => ExprV::WitnessCall { span, name, args: nameless_list(args, args.len()) },
        ExprV::FnCall { span, name, path, args } => ExprV::FnCall { span, name, path, args: nameless_list(args, args.len()) },
        ExprV::MethodCall { span, receiver, method, args } => ExprV::MethodCall { span, receiver: Box::new(nameless(*receiver)), method, args: nameless_list(args, args.len()) },
        ExprV::BinaryOp { span, op, lhs, rhs } => ExprV::BinaryOp { span, op, lhs: Box::new(nameless(*lhs)), rhs: Box::new(nameless(*rhs)) },
        ExprV::UnaryOp { span, op, expr } => ExprV::UnaryOp { span, op, expr: Box::new(nameless(*expr)) },
        ExprV::Reference { span, expr } => ExprV::Reference { span, expr: Box::new(nameless(*expr)) },
        ExprV::Disclose { span, value } => ExprV::Disclose { span, value: Box::new(nameless(*value)) },
        ExprV::Block { span, stmts } => ExprV::Block { span, stmts: nameless_list(stmts, stmts.len()) },
        ExprV::EnumPayload { span, scrutinee, enum_name } => ExprV::EnumPayload { span, scrutinee: Box::new(nameless(*scrutinee)), enum_name },
        ExprV::Index { span, array, index } => ExprV::Index { span, array: Box::new(nameless(*array)), index },
        ExprV::Tuple { span, elements } => ExprV::Tuple { span, elements: nameless_list(elements, elements.len()) },
        ExprV::ArrayLit { span, elements } => ExprV::ArrayLit { span, elements: nameless_list(elements, elements.len()) },
        ExprV::StructInit { span, name, fields } => ExprV::StructInit { span, name, fields: nameless_fields(fields, fields.len()) },
        ExprV::Var { span, .. } => ExprV::Var { span, name: seq![] },
        ExprV::Let { span, value, .. } => ExprV::Let { span, name: seq![], value: Box::new(nameless(*value)) },
        ExprV::Assert { span, kind } => match kind {
            AssertV::Assert(c) => ExprV::Assert { span, kind: AssertV::Assert(Box::new(nameless(*c))) },
            AssertV::AssertEq(l, r) => ExprV::Assert {
                span,
                kind: AssertV::AssertEq(Box::new(nameless(*l)), Box::new(nameless(*r))),
            },
        },
        ExprV::If { span, cond, then_branch, else_branch } => ExprV::If {
            span,
            cond: Box::new(nameless(*cond)),
            then_branch: nameless_list(then_branch, then_branch.len()),
            else_branch: match else_branch {
                Some(b) => Some(nameless_list(b, b.len())),
                None => None,
            },
        },
        ExprV::Return { span, value } => ExprV::Return {
            span,
            value: match value {
                Some(v) => Some(Box::new(nameless(*v))),
                None => None,
            },
        },
        _ => e,
    }
}

pub open spec fn nameless_list(es: Seq<ExprV>, n: nat) -> Seq<ExprV>
    decreases es, n,
{
    if n == 0 || n > es.len() {
        seq![]
    } else {
        nameless_list(es, (n - 1) as nat).push(nameless(es[n - 1]))
    }
}

pub open spec fn nameless_fields(fs: Seq<(Seq<char>, ExprV)>, n: nat) -> Seq<(Seq<char>, ExprV)>
    decreases fs, n,
{
    if n == 0 || n > fs.len() {
        seq![]
    } else {
        nameless_fields(fs, (n - 1) as nat).push((fs[n - 1].0, nameless(fs[n - 1].1)))
    }
}

// ---- what renaming does to them

/// The `n`-th binding number behind `seq`, in 32-bit arithmetic.
pub open spec fn shift(seq: u32, n: int) -> u32 {
    ((seq + n) % 0x1_0000_0000) as u32
}

/// Names under consecutive binding numbers of a splice, from `seq` on.
pub open spec fn numbered(names: Seq<Seq<char>>, counter: u32, seq: u32) -> Seq<Seq<char>> {
    Seq::new(names.len(), |i: int| fresh_name(counter, shift(seq, i), names[i]))
}

/// The names of an expression and of its renamed form.
pub struct NamesV {
    pub bound: Seq<Seq<char>>,
    pub used: Seq<Seq<char>>,
    pub bound_after: Seq<Seq<char>>,
    pub used_after: Seq<Seq<char>>,
}

/// Two expressions after each other.
pub open spec fn joined(a: NamesV, b: NamesV) -> NamesV {
    NamesV {
        bound: a.bound + b.bound,
        used: a.used + b.used,
        bound_after: a.bound_after + b.bound_after,
        used_after: a.used_after + b.used_after,
    }
}

/// Every binding has its number, a name that is neither bound nor replaced
/// stays, and the names in force change only for what is bound.
pub open spec fn in_order(
    m: NamesV,
    subst: Map<Seq<char>, Seq<char>>,
    counter: u32,
    seq: u32,
    subst_after: Map<Seq<char>, Seq<char>>,
    seq_after: u32,
) -> bool {
    &&& seq_after == shift(seq, m.bound.len() as int)
    &&& m.bound_after == numbered(m.bound, counter, seq)
    &&& m.used_after.len() == m.used.len()
    &&& forall|i: int|
        0 <= i < m.used.len() && !subst.contains_key(m.used[i]) && !m.bound.contains(m.used[i])
            ==> #[trigger] m.used_after[i] == m.used[i]
    &&& forall|k: Seq<char>|
        !m.bound.contains(k) ==> #[trigger] subst_after.contains_key(k) == subst.contains_key(k)
}

proof fn lemma_shift(seq: u32, a: int, b: int)
    requires
        a >= 0,
        b >= 0,
    ensures
        shift(shift(seq, a), b) == shift(seq, a + b),
{
    assert(((seq + a) % 0x1_0000_0000 + b) % 0x1_0000_0000 == (seq + a + b) % 0x1_0000_0000);
}

proof fn lemma_joined(
    a: NamesV,
    b: NamesV,
    counter: u32,
    s0: Map<Seq<char>, Seq<char>>,
    q0: u32,
    s1: Map<Seq<char>, Seq<char>>,
    q1: u32,
    s2: Map<Seq<char>, Seq<char>>,
    q2: u32,
)
    requires
        in_order(a, s0, counter, q0, s1, q1),
        in_order(b, s1, counter, q1, s2, q2),
    ensures
        in_order(joined(a, b), s0, counter, q0, s2, q2),
{
    let m = joined(a, b);
    let n = a.bound.len();
    lemma_shift(q0, n as int, b.bound.len() as int);
    assert forall|i: int| 0 <= i < b.bound.len() implies #[trigger] shift(q1, i) == shift(q0, n + i) by {
        lemma_shift(q0, n as int, i);
    }
    assert(m.bound_after =~= numbered(m.bound, counter, q0));
    lemma_contains(a.bound, b.bound);
    assert forall|i: int|
        0 <= i < m.used.len() && !s0.contains_key(m.used[i]) && !m.bound.contains(
            m.used[i],
        ) implies #[trigger] m.used_after[i] == m.used[i] by {
        let x = m.used[i];
        assert(!a.bound.contains(x) && !b.bound.contains(x));
        if i < a.used.len() {
            assert(a.used_after[i] == a.used[i]);
        } else {
            assert(s1.contains_key(x) == s0.contains_key(x));
            assert(b.used_after[i - a.used.len()] == b.used[i - a.used.len()]);
        }
    }
    assert forall|k: Seq<char>| !m.bound.contains(k) implies #[trigger] s2.contains_key(k) == s0.contains_key(k) by {
        assert(!a.bound.contains(k) && !b.bound.contains(k));
        assert(s1.contains_key(k) == s0.contains_key(k));
    }
}

proof fn lemma_contains(a: Seq<Seq<char>>, b: Seq<Seq<char>>)
    ensures
        forall|x: Seq<char>| a.contains(x) ==> #[trigger] (a + b).contains(x),
        forall|x: Seq<char>| b.contains(x) ==> #[trigger] (a + b).contains(x),
{
    assert forall|x: Seq<char>| a.contains(x) implies #[trigger] (a + b).contains(x) by {
        let i = a.index_of(x);
        assert((a + b)[i] == x);
    }
    assert forall|x: Seq<char>| b.contains(x) implies #[trigger] (a + b).contains(x) by {
        let i = b.index_of(x);
        assert((a + b)[a.len() + i] == x);
    }
}

/// Nothing is renamed.
proof fn lemma_nothing(subst: Map<Seq<char>, Seq<char>>, counter: u32, seq: u32)
    ensures
        in_order(
            NamesV { bound: seq![], used: seq![], bound_after: seq![], used_after: seq![] },
            subst,
            counter,
            seq,
            subst,
            seq,
        ),
{
    assert(numbered(seq![], counter, seq) =~= seq![]);
}

/// The names of `e` and of its renamed form.
pub open spec fn names(e: ExprV, subst: Map<Seq<char>, Seq<char>>, counter: u32, seq: u32) -> NamesV {
    let r = renamed(e, subst, counter, seq).expr;
    NamesV { bound: bound(e), used: used(e), bound_after: bound(r), used_after: used(r) }
}

pub open spec fn list_names(
    es: Seq<ExprV>,
    n: nat,
    subst: Map<Seq<char>, Seq<char>>,
    counter: u32,
    seq: u32,
) -> NamesV {
    let r = renamed_list(es, n, subst, counter, seq).exprs;
    NamesV {
        bound: bound_list(es, n),
        used: used_list(es, n),
        bound_after: bound_list(r, n),
        used_after: used_list(r, n),
    }
}

pub open spec fn field_names(
    fs: Seq<(Seq<char>, ExprV)>,
    n: nat,
    subst: Map<Seq<char>, Seq<char>>,
    counter: u32,
    seq: u32,
) -> NamesV {
    let r = renamed_fields(fs, n, subst, counter, seq).fields;
    NamesV {
        bound: bound_fields(fs, n),
        used: used_fields(fs, n),
        bound_after: bound_fields(r, n),
        used_after: used_fields(r, n),
    }
}

proof fn lemma_list_prefix(a: Seq<ExprV>, x: ExprV, n: nat)
    requires
        n <= a.len(),
    ensures
        bound_list(a.push(x), n) == bound_list(a, n),
        used_list(a.push(x), n) == used_list(a, n),
        nameless_list(a.push(x), n) == nameless_list(a, n),
    decreases n,
{
    if n > 0 {
        lemma_list_prefix(a, x, (n - 1) as nat);
        assert(a.push(x)[n - 1] == a[n - 1]);
    }
}

proof fn lemma_fields_prefix(a: Seq<(Seq<char>, ExprV)>, x: (Seq<char>, ExprV), n: nat)
    requires
        n <= a.len(),
    ensures
        bound_fields(a.push(x), n) == bound_fields(a, n),
        used_fields(a.push(x), n) == used_fields(a, n),
        nameless_fields(a.push(x), n) == nameless_fields(a, n),
    decreases n,
{
    if n > 0 {
        lemma_fields_prefix(a, x, (n - 1) as nat);
        assert(a.push(x)[n - 1] == a[n - 1]);
    }
}

#[verifier::rlimit(60)]
proof fn lemma_renamed(e: ExprV, subst: Map<Seq<char>, Seq<char>>, counter: u32, seq: u32)
    ensures
        ({
            let r = renamed(e, subst, counter, seq);
            &&& in_order(names(e, subst, counter, seq), subst, counter, seq, r.subst, r.seq)
            &&& nameless(r.expr) == nameless(e)
        }),
    decreases e, 1nat,
{
    lemma_nothing(subst, counter, seq);
    let r = renamed(e, subst, counter, seq);
    match e {
        ExprV::LedgerAccess { args, .. } => lemma_renamed_list(args, args.len(), subst, counter, seq),
        ExprV::WitnessCall { args, .. } => lemma_renamed_list(args, args.len(), subst, counter, seq),
        ExprV::FnCall { args, .. } => lemma_renamed_list(args, args.len(), subst, counter, seq),
        ExprV::MethodCall { receiver, args, .. } => {
            let a = renamed(*receiver, subst, counter, seq);
            lemma_renamed(*receiver, subst, counter, seq);
            lemma_renamed_list(args, args.len(), a.subst, counter, a.seq);
            lemma_joined(
                names(*receiver, subst, counter, seq),
                list_names(args, args.len(), a.subst, counter, a.seq),
                counter,
                subst,
                seq,
                a.subst,
                a.seq,
                r.subst,
                r.seq,
            );
        }
        ExprV::BinaryOp { lhs, rhs, .. } => {
            let a = renamed(*lhs, subst, counter, seq);
            lemma_renamed(*lhs, subst, counter, seq);
            lemma_renamed(*rhs, a.subst, counter, a.seq);
            lemma_joined(
                names(*lhs, subst, counter, seq),
                names(*rhs, a.subst, counter, a.seq),
                counter,
                subst,
                seq,
                a.subst,
                a.seq,
                r.subst,
                r.seq,
            );
        }
        ExprV::UnaryOp { expr, .. } => lemma_renamed(*expr, subst, counter, seq),
        ExprV::Reference { expr, .. } => lemma_renamed(*expr, subst, counter, seq),
        ExprV::Disclose { value, .. } => lemma_renamed(*value, subst, counter, seq),
        ExprV::Block { stmts, .. } => lemma_renamed_list(stmts, stmts.len(), subst, counter, seq),
        ExprV::EnumPayload { scrutinee, .. } => lemma_renamed(*scrutinee, subst, counter, seq),
        ExprV::Index { array, .. } => lemma_renamed(*array, subst, counter, seq),
        ExprV::Tuple { elements, .. } => lemma_renamed_list(elements, elements.len(), subst, counter, seq),
        ExprV::ArrayLit { elements, .. } => lemma_renamed_list(elements, elements.len(), subst, counter, seq),
        ExprV::StructInit { fields, .. } => lemma_renamed_fields(fields, fields.len(), subst, counter, seq),
        ExprV::Var { name, .. } => {
            assert(numbered(seq![], counter, seq) =~= seq![]);
        }
        ExprV::Let { name, value, .. } => lemma_renamed_let(e, subst, counter, seq),
        ExprV::Assert { kind, .. } => match kind {
            AssertV::Assert(c) => lemma_renamed(*c, subst, counter, seq),
            AssertV::AssertEq(lhs, rhs) => {
                let a = renamed(*lhs, subst, counter, seq);
                lemma_renamed(*lhs, subst, counter, seq);
                lemma_renamed(*rhs, a.subst, counter, a.seq);
                lemma_joined(
                    names(*lhs, subst, counter, seq),
                    names(*rhs, a.subst, counter, a.seq),
                    counter,
                    subst,
                    seq,
                    a.subst,
                    a.seq,
                    r.subst,
                    r.seq,
                );
            }
        },
        ExprV::If { .. } => lemma_renamed_if(e, subst, counter, seq),
        ExprV::Return { value, .. } => match value {
            Some(v) => lemma_renamed(*v, subst, counter, seq),
            None => {}
        },
        _ => {}
    }
}

proof fn lemma_renamed_let(e: ExprV, subst: Map<Seq<char>, Seq<char>>, counter: u32, seq: u32)
    requires
        e is Let,
    ensures
        ({
            let r = renamed(e, subst, counter, seq);
            &&& in_order(names(e, subst, counter, seq), subst, counter, seq, r.subst, r.seq)
            &&& nameless(r.expr) == nameless(e)
        }),
    decreases e, 0nat,
{
    let r = renamed(e, subst, counter, seq);
    match e {
        ExprV::Let { name, value, .. } => {
            let v = renamed(*value, subst, counter, seq);
            lemma_renamed(*value, subst, counter, seq);
            let own = NamesV {
                bound: seq![name],
                used: seq![],
                bound_after: seq![fresh_name(counter, v.seq, name)],
                used_after: seq![],
            };
            assert(shift(v.seq, 0) == v.seq);
            assert(shift(v.seq, 1) == v.seq.wrapping_add(1));
            assert(own.bound_after =~= numbered(own.bound, counter, v.seq));
            assert forall|k: Seq<char>| !own.bound.contains(k) implies #[trigger] r.subst.contains_key(k)
                == v.subst.contains_key(k) by {
                assert(own.bound[0] == name);
            }
            lemma_joined(
                names(*value, subst, counter, seq),
                own,
                counter,
                subst,
                seq,
                v.subst,
                v.seq,
                r.subst,
                r.seq,
            );
            let m = joined(names(*value, subst, counter, seq), own);
            assert(m.bound =~= bound(e));
            assert(m.used =~= used(e));
            assert(m.bound_after =~= bound(r.expr));
            assert(m.used_after =~= used(r.expr));
        }
        _ => {}
    }
}

proof fn lemma_renamed_if(e: ExprV, subst: Map<Seq<char>, Seq<char>>, counter: u32, seq: u32)
    requires
        e is If,
    ensures
        ({
            let r = renamed(e, subst, counter, seq);
            &&& in_order(names(e, subst, counter, seq), subst, counter, seq, r.subst, r.seq)
            &&& nameless(r.expr) == nameless(e)
        }),
    decreases e, 0nat,
{
    let r = renamed(e, subst, counter, seq);
    match e {
        ExprV::If { cond, then_branch, else_branch, .. } => {
            let c = renamed(*cond, subst, counter, seq);
            let t = renamed_list(then_branch, then_branch.len(), c.subst, counter, c.seq);
            let first = names(*cond, subst, counter, seq);
            let second = list_names(then_branch, then_branch.len(), c.subst, counter, c.seq);
            lemma_renamed(*cond, subst, counter, seq);
            lemma_renamed_list(then_branch, then_branch.len(), c.subst, counter, c.seq);
            assert(in_order(second, c.subst, counter, c.seq, c.subst, t.seq));
            lemma_joined(first, second, counter, subst, seq, c.subst, c.seq, c.subst, t.seq);
            match else_branch {
                Some(b) => {
                    let third = list_names(b, b.len(), c.subst, counter, t.seq);
                    let f = renamed_list(b, b.len(), c.subst, counter, t.seq);
                    lemma_renamed_list(b, b.len(), c.subst, counter, t.seq);
                    assert(in_order(third, c.subst, counter, t.seq, c.subst, f.seq));
                    lemma_joined(
                        joined(first, second),
                        third,
                        counter,
                        subst,
                        seq,
                        c.subst,
                        t.seq,
                        c.subst,
                        f.seq,
                    );
                }
                None => {}
            }
        }
        _ => {}
    }
}

proof fn lemma_renamed_list(es: Seq<ExprV>, n: nat, subst: Map<Seq<char>, Seq<char>>, counter: u32, seq: u32)
    requires
        n <= es.len(),
    ensures
        ({
            let r = renamed_list(es, n, subst, counter, seq);
            &&& in_order(list_names(es, n, subst, counter, seq), subst, counter, seq, r.subst, r.seq)
            &&& nameless_list(r.exprs, n) == nameless_list(es, n)
            &&& r.exprs.len() == n
        }),
    decreases es, n,
{
    lemma_nothing(subst, counter, seq);
    if n > 0 {
        let p = renamed_list(es, (n - 1) as nat, subst, counter, seq);
        let r = renamed(es[n - 1], p.subst, counter, p.seq);
        lemma_renamed_list(es, (n - 1) as nat, subst, counter, seq);
        lemma_renamed(es[n - 1], p.subst, counter, p.seq);
        lemma_list_prefix(p.exprs, r.expr, (n - 1) as nat);
        assert(p.exprs.push(r.expr)[n - 1] == r.expr);
        lemma_joined(
            list_names(es, (n - 1) as nat, subst, counter, seq),
            names(es[n - 1], p.subst, counter, p.seq),
            counter,
            subst,
            seq,
            p.subst,
            p.seq,
            r.subst,
            r.seq,
        );
    }
}

proof fn lemma_renamed_fields(
    fs: Seq<(Seq<char>, ExprV)>,
    n: nat,
    subst: Map<Seq<char>, Seq<char>>,
    counter: u32,
    seq: u32,
)
    requires
        n <= fs.len(),
    ensures
        ({
            let r = renamed_fields(fs, n, subst, counter, seq);
            &&& in_order(field_names(fs, n, subst, counter, seq), subst, counter, seq, r.subst, r.seq)
            &&& nameless_fields(r.fields, n) == nameless_fields(fs, n)
            &&& r.fields.len() == n
        }),
    decreases fs, n,
{
    lemma_nothing(subst, counter, seq);
    if n > 0 {
        let p = renamed_fields(fs, (n - 1) as nat, subst, counter, seq);
        let r = renamed(fs[n - 1].1, p.subst, counter, p.seq);
        lemma_renamed_fields(fs, (n - 1) as nat, subst, counter, seq);
        lemma_renamed(fs[n - 1].1, p.subst, counter, p.seq);
        lemma_fields_prefix(p.fields, (fs[n - 1].0, r.expr), (n - 1) as nat);
        assert(p.fields.push((fs[n - 1].0, r.expr))[n - 1] == (fs[n - 1].0, r.expr));
        lemma_joined(
            field_names(fs, (n - 1) as nat, subst, counter, seq),
            names(fs[n - 1].1, p.subst, counter, p.seq),
            counter,
            subst,
            seq,
            p.subst,
            p.seq,
            r.subst,
            r.seq,
        );
    }
}

// ---- the laws

/// Renaming numbers every binding of an expression with a number of its own:
/// the bindings take consecutive numbers from `seq` on, in the order of
/// evaluation, and the next number is the first that none took.
pub proof fn bindings_are_numbered(e: ExprV, subst: Map<Seq<char>, Seq<char>>, counter: u32, seq: u32)
    ensures
        bound(renamed(e, subst, counter, seq).expr) == numbered(bound(e), counter, seq),
        renamed(e, subst, counter, seq).seq == shift(seq, bound(e).len() as int),
{
    lemma_renamed(e, subst, counter, seq);
}

/// Below 2^32 bindings, no two bindings of a renamed expression share a name.
pub proof fn renamed_bindings_differ(
    e: ExprV,
    subst: Map<Seq<char>, Seq<char>>,
    counter: u32,
    seq: u32,
    i: int,
    j: int,
)
    requires
        0 <= i < j < bound(e).len(),
        bound(e).len() <= 0x1_0000_0000,
    ensures
        bound(renamed(e, subst, counter, seq).expr)[i] != bound(renamed(e, subst, counter, seq).expr)[j],
{
    lemma_renamed(e, subst, counter, seq);
    assert(shift(seq, i) != shift(seq, j));
    crate::splice_laws::fresh_names_never_collide(
        counter,
        shift(seq, i),
        bound(e)[i],
        counter,
        shift(seq, j),
        bound(e)[j],
    );
}

/// A variable that the expression does not bind and that has no replacement
/// keeps its name.
pub proof fn free_names_stay(e: ExprV, subst: Map<Seq<char>, Seq<char>>, counter: u32, seq: u32, i: int)
    requires
        0 <= i < used(e).len(),
        !subst.contains_key(used(e)[i]),
        !bound(e).contains(used(e)[i]),
    ensures
        used(renamed(e, subst, counter, seq).expr).len() == used(e).len(),
        used(renamed(e, subst, counter, seq).expr)[i] == used(e)[i],
{
    lemma_renamed(e, subst, counter, seq);
    let m = names(e, subst, counter, seq);
    assert(m.used_after[i] == m.used[i]);
}

/// Renaming changes nothing but the names of variables and bindings.
pub proof fn renaming_keeps_the_shape(e: ExprV, subst: Map<Seq<char>, Seq<char>>, counter: u32, seq: u32)
    ensures
        nameless(renamed(e, subst, counter, seq).expr) == nameless(e),
{
    lemma_renamed(e, subst, counter, seq);
}

/// A block gives back the names that were in force before it, and an `if`
/// those behind its condition.
pub proof fn branches_give_back_names(e: ExprV, subst: Map<Seq<char>, Seq<char>>, counter: u32, seq: u32)
    ensures
        e is Block ==> renamed(e, subst, counter, seq).subst == subst,
        e matches ExprV::If { cond, .. } ==> renamed(e, subst, counter, seq).subst == renamed(
            *cond,
            subst,
            counter,
            seq,
        ).subst,
{
}

} // verus!
