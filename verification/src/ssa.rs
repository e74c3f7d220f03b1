//! Analyses of the conversion of programs to static single assignment form.
use crate::hir::copy_name;
use crate::hir::copy_type;
use crate::hir::copy_types;
use crate::hir::Block;
use crate::hir::Expr;
use crate::hir::ExprKind;
use crate::hir::Name;
use crate::hir::Pattern;
use crate::hir::Stmt;
use crate::hir::StmtKind;
use vstd::prelude::*;

verus! {

/// Some name of `xs` is `x`, names compared by their text.
pub open spec fn has_name(xs: Seq<Name>, x: Name) -> bool {
    exists|i: int| 0 <= i < xs.len() && #[trigger] xs[i]@ == x@
}

/// The names mutated by the statements `ss`, in the order of their first
/// mutation, after those of `acc`: a variable statement adds those its
/// expression mutates.
pub open spec fn mutated_in_stmts(ss: Seq<Stmt>, xs0: Seq<Name>, acc: Seq<Name>) -> Seq<Name>
    decreases ss,
{
    if ss.len() == 0 {
        acc
    } else {
        mutated_in_stmt(ss.last(), xs0, mutated_in_stmts(ss.drop_last(), xs0, acc))
    }
}

/// What the statement `s` adds to `acc`: those its expression mutates, if
/// it is a variable statement.
pub open spec fn mutated_in_stmt(s: Stmt, xs0: Seq<Name>, acc: Seq<Name>) -> Seq<Name>
    decreases s,
{
    match s.kind {
        StmtKind::SVar(_, e) => mutated_in_expr(e, xs0, acc),
        _ => acc,
    }
}

/// What the expression `e` adds to `acc`: an assignment to a variable of
/// `xs0` not yet in `acc` adds the variable; a conditional adds what the
/// statements of its branches add, then-branch first; a loop adds what the
/// statements of its body add; nothing else looks deeper.
pub open spec fn mutated_in_expr(e: Expr, xs0: Seq<Name>, acc: Seq<Name>) -> Seq<Name>
    decreases e,
{
    match *e.kind {
        ExprKind::EIfElse(_, b0, b1) => mutated_in_stmts(b1.ss@, xs0, mutated_in_stmts(b0.ss@, xs0, acc)),
        ExprKind::ELoop(b) => mutated_in_stmts(b.ss@, xs0, acc),
        ExprKind::EMut(target, _) => match *target.kind {
            ExprKind::EVar(x) => if has_name(xs0, x) && !has_name(acc, x) {
                acc.push(x)
            } else {
                acc
            },
            _ => acc,
        },
        _ => acc,
    }
}

/// Whether some name of the list is `x`.
pub fn contains_name(xs: &Vec<Name>, x: &Name) -> (r: bool)
    ensures
        r == has_name(xs@, *x),
{
    let mut i: usize = 0;
    while i < xs.len()
        invariant
            i <= xs@.len(),
            forall|j: int| 0 <= j < i ==> xs@[j]@ != x@,
        decreases xs.len() - i,
    {
        if xs[i] == *x {
            return true;
        }
        i = i + 1;
    }
    false
}

/// Adds to `acc` what the statements add.
fn mutated_stmts(ss: &Vec<Stmt>, xs0: &Vec<Name>, acc: &mut Vec<Name>)
    ensures
        final(acc)@ == mutated_in_stmts(ss@, xs0@, old(acc)@),
    decreases *ss,
{
    let ghost start = acc@;
    let mut i: usize = 0;
    while i < ss.len()
        invariant
            i <= ss@.len(),
            acc@ == mutated_in_stmts(ss@.take(i as int), xs0@, start),
        decreases ss.len() - i,
    {
        proof {
            assert(decreases_to!(*ss => ss@[i as int]));
        }
        mutated_stmt(&ss[i], xs0, acc);
        proof {
            assert(ss@.take(i + 1).drop_last() =~= ss@.take(i as int));
        }
        i = i + 1;
    }
    proof {
        assert(ss@.take(ss@.len() as int) =~= ss@);
    }
}

/// Adds to `acc` what the statement adds.
fn mutated_stmt(s: &Stmt, xs0: &Vec<Name>, acc: &mut Vec<Name>)
    ensures
        final(acc)@ == mutated_in_stmt(*s, xs0@, old(acc)@),
    decreases *s,
{
    match &s.kind {
        StmtKind::SVar(_, e) => mutated_expr(e, xs0, acc),
        _ => {},
    }
}

/// Adds to `acc` what the expression adds.
fn mutated_expr(e: &Expr, xs0: &Vec<Name>, acc: &mut Vec<Name>)
    ensures
        final(acc)@ == mutated_in_expr(*e, xs0@, old(acc)@),
    decreases *e,
{
    match &*e.kind {
        ExprKind::EIfElse(_, b0, b1) => {
            mutated_stmts(&b0.ss, xs0, acc);
            mutated_stmts(&b1.ss, xs0, acc);
        },
        ExprKind::ELoop(b) => {
            mutated_stmts(&b.ss, xs0, acc);
        },
        ExprKind::EMut(target, _) => match &*target.kind {
            ExprKind::EVar(x) => {
                if contains_name(xs0, x) && !contains_name(acc, x) {
                    acc.push(x.clone());
                }
            },
            _ => {},
        },
        _ => {},
    }
}

/// The variables of `xs0` that the statements of the block assign to,
/// each once, in the order of their first assignment. Assignments within
/// the branches of conditionals and in the bodies of loops count; the
/// block's value is not looked into.
pub fn mutated(b: &Block, xs0: Vec<Name>) -> (r: Vec<Name>)
    ensures
        r@ == mutated_in_stmts(b.ss@, xs0@, Seq::empty()),
{
    let mut xs1: Vec<Name> = Vec::new();
    mutated_stmts(&b.ss, &xs0, &mut xs1);
    xs1
}

/// No two names of the list have the same text.
pub open spec fn distinct_names(xs: Seq<Name>) -> bool {
    forall|i: int, j: int| 0 <= i < j < xs.len() ==> xs[i]@ != xs[j]@
}

/// Every name of `xs` is a name of `xs0`.
pub open spec fn names_from(xs: Seq<Name>, xs0: Seq<Name>) -> bool {
    forall|i: int| 0 <= i < xs.len() ==> #[trigger] has_name(xs0, xs[i])
}

/// The mutated variables found by `mutated` are distinct variables of
/// `xs0`, found after those already collected: collecting from statements
/// keeps what was collected first and adds only new variables of `xs0`.
pub proof fn law_mutated_distinct_from(ss: Seq<Stmt>, xs0: Seq<Name>, acc: Seq<Name>)
    requires
        distinct_names(acc),
        names_from(acc, xs0),
    ensures
        distinct_names(mutated_in_stmts(ss, xs0, acc)),
        names_from(mutated_in_stmts(ss, xs0, acc), xs0),
        acc.is_prefix_of(mutated_in_stmts(ss, xs0, acc)),
    decreases ss,
{
    if ss.len() > 0 {
        let mid = mutated_in_stmts(ss.drop_last(), xs0, acc);
        law_mutated_distinct_from(ss.drop_last(), xs0, acc);
        lemma_stmt_distinct_from(ss.last(), xs0, mid);
    }
}

/// A statement keeps the collected variables distinct variables of `xs0`.
proof fn lemma_stmt_distinct_from(s: Stmt, xs0: Seq<Name>, acc: Seq<Name>)
    requires
        distinct_names(acc),
        names_from(acc, xs0),
    ensures
        distinct_names(mutated_in_stmt(s, xs0, acc)),
        names_from(mutated_in_stmt(s, xs0, acc), xs0),
        acc.is_prefix_of(mutated_in_stmt(s, xs0, acc)),
    decreases s,
{
    match &s.kind {
        StmtKind::SVar(_, e) => lemma_expr_distinct_from(*e, xs0, acc),
        _ => {},
    }
}

/// An expression keeps the collected variables distinct variables of `xs0`.
proof fn lemma_expr_distinct_from(e: Expr, xs0: Seq<Name>, acc: Seq<Name>)
    requires
        distinct_names(acc),
        names_from(acc, xs0),
    ensures
        distinct_names(mutated_in_expr(e, xs0, acc)),
        names_from(mutated_in_expr(e, xs0, acc), xs0),
        acc.is_prefix_of(mutated_in_expr(e, xs0, acc)),
    decreases e,
{
    match &*e.kind {
        ExprKind::EIfElse(_, b0, b1) => {
            let mid = mutated_in_stmts(b0.ss@, xs0, acc);
            law_mutated_distinct_from(b0.ss@, xs0, acc);
            law_mutated_distinct_from(b1.ss@, xs0, mid);
            let fin = mutated_in_stmts(b1.ss@, xs0, mid);
            assert(acc.is_prefix_of(fin)) by {
                assert forall|i: int| 0 <= i < acc.len() implies fin[i] == acc[i] by {
                    assert(mid[i] == acc[i]);
                }
            }
        },
        ExprKind::ELoop(b) => {
            law_mutated_distinct_from(b.ss@, xs0, acc);
        },
        ExprKind::EMut(target, _) => match &*target.kind {
            ExprKind::EVar(x) => {
                if has_name(xs0, *x) && !has_name(acc, *x) {
                    let r = acc.push(*x);
                    assert forall|i: int, j: int| 0 <= i < j < r.len() implies r[i]@ != r[j]@ by {
                        if j == acc.len() {
                            assert(acc[i] == r[i]);
                        }
                    }
                    assert forall|i: int| 0 <= i < r.len() implies #[trigger] has_name(xs0, r[i]) by {
                        if i < acc.len() {
                            assert(r[i] == acc[i]);
                        }
                    }
                }
            },
            _ => {},
        },
        _ => {},
    }
}

/// What a variable statement adds depends only on its expression: any two
/// variable statements with the same expression, whatever their patterns
/// (a bound variable or `_`), add the same names.
pub proof fn law_mutated_ignores_pattern(s1: Stmt, s2: Stmt, p: Pattern, q: Pattern, e: Expr, xs0: Seq<Name>, acc: Seq<Name>)
    requires
        s1.kind == StmtKind::SVar(p, e),
        s2.kind == StmtKind::SVar(q, e),
    ensures
        mutated_in_stmt(s1, xs0, acc) == mutated_in_stmt(s2, xs0, acc),
{
}

/// The names collected from statements are those collected before and
/// those the statements mutate on their own: a name is found after `acc`
/// exactly when `acc` has it or the statements, collected from nothing,
/// report it.
pub proof fn law_mutated_collects_union(ss: Seq<Stmt>, xs0: Seq<Name>, acc: Seq<Name>, x: Name)
    ensures
        has_name(mutated_in_stmts(ss, xs0, acc), x) == (has_name(acc, x) || has_name(
            mutated_in_stmts(ss, xs0, Seq::empty()),
            x,
        )),
    decreases ss,
{
    if ss.len() > 0 {
        let init = ss.drop_last();
        law_mutated_collects_union(init, xs0, acc, x);
        law_mutated_collects_union(init, xs0, Seq::empty(), x);
        lemma_stmt_collects_union(ss.last(), xs0, mutated_in_stmts(init, xs0, acc), x);
        lemma_stmt_collects_union(ss.last(), xs0, mutated_in_stmts(init, xs0, Seq::empty()), x);
    }
}

/// A statement's part of `law_mutated_collects_union`.
proof fn lemma_stmt_collects_union(s: Stmt, xs0: Seq<Name>, acc: Seq<Name>, x: Name)
    ensures
        has_name(mutated_in_stmt(s, xs0, acc), x) == (has_name(acc, x) || has_name(
            mutated_in_stmt(s, xs0, Seq::empty()),
            x,
        )),
    decreases s,
{
    match &s.kind {
        StmtKind::SVar(_, e) => lemma_expr_collects_union(*e, xs0, acc, x),
        _ => {},
    }
}

/// An expression's part of `law_mutated_collects_union`.
proof fn lemma_expr_collects_union(e: Expr, xs0: Seq<Name>, acc: Seq<Name>, x: Name)
    ensures
        has_name(mutated_in_expr(e, xs0, acc), x) == (has_name(acc, x) || has_name(
            mutated_in_expr(e, xs0, Seq::empty()),
            x,
        )),
    decreases e,
{
    let empty = Seq::<Name>::empty();
    match &*e.kind {
        ExprKind::EIfElse(_, b0, b1) => {
            let mid = mutated_in_stmts(b0.ss@, xs0, acc);
            let mid0 = mutated_in_stmts(b0.ss@, xs0, empty);
            law_mutated_collects_union(b0.ss@, xs0, acc, x);
            law_mutated_collects_union(b1.ss@, xs0, mid, x);
            law_mutated_collects_union(b1.ss@, xs0, mid0, x);
        },
        ExprKind::ELoop(b) => {
            law_mutated_collects_union(b.ss@, xs0, acc, x);
        },
        ExprKind::EMut(target, _) => match &*target.kind {
            ExprKind::EVar(y) => {
                if has_name(xs0, *y) {
                    assert(has_name(empty.push(*y), *y)) by {
                        assert(empty.push(*y)[0] == *y);
                    }
                    if has_name(empty.push(*y), x) {
                        let i = choose|i: int| 0 <= i < empty.push(*y).len() && #[trigger] empty.push(*y)[i]@ == x@;
                        assert(i == 0);
                        assert(y@ == x@);
                        if !has_name(acc, *y) {
                            assert(acc.push(*y)[acc.len() as int] == *y);
                        }
                    }
                    if has_name(acc, x) {
                        let i = choose|i: int| 0 <= i < acc.len() && #[trigger] acc[i]@ == x@;
                        assert(acc.push(*y)[i] == acc[i]);
                    }
                    if has_name(acc.push(*y), x) && !has_name(acc, *y) {
                        let i = choose|i: int| 0 <= i < acc.push(*y).len() && #[trigger] acc.push(*y)[i]@ == x@;
                        if i < acc.len() {
                            assert(acc.push(*y)[i] == acc[i]);
                        } else {
                            assert(empty.push(*y)[0] == *y);
                        }
                    }
                }
            },
            _ => {},
        },
        _ => {},
    }
}

/// An assignment to a variable of `xs0` is reported, whatever the pattern
/// of the variable statement that holds it.
pub proof fn law_mutated_reports_assignment(
    s: Stmt,
    p: Pattern,
    e: Expr,
    target: Expr,
    v: Expr,
    x: Name,
    xs0: Seq<Name>,
    acc: Seq<Name>,
)
    requires
        s.kind == StmtKind::SVar(p, e),
        *e.kind == ExprKind::EMut(target, v),
        *target.kind == ExprKind::EVar(x),
        has_name(xs0, x),
    ensures
        has_name(mutated_in_stmt(s, xs0, acc), x),
{
    if !has_name(acc, x) {
        assert(acc.push(x)[acc.len() as int] == x);
    }
}

/// What a conditional's branches report, the conditional reports, whatever
/// the pattern of the variable statement that holds it.
pub proof fn law_mutated_looks_into_branches(
    s: Stmt,
    p: Pattern,
    e: Expr,
    c: Expr,
    b0: Block,
    b1: Block,
    x: Name,
    xs0: Seq<Name>,
    acc: Seq<Name>,
)
    requires
        s.kind == StmtKind::SVar(p, e),
        *e.kind == ExprKind::EIfElse(c, b0, b1),
        has_name(mutated_in_stmts(b0.ss@, xs0, acc), x) || has_name(mutated_in_stmts(b1.ss@, xs0, acc), x),
    ensures
        has_name(mutated_in_stmt(s, xs0, acc), x),
{
    let mid = mutated_in_stmts(b0.ss@, xs0, acc);
    law_mutated_collects_union(b0.ss@, xs0, acc, x);
    law_mutated_collects_union(b1.ss@, xs0, acc, x);
    law_mutated_collects_union(b1.ss@, xs0, mid, x);
}

/// What a loop's body reports, the loop reports, whatever the pattern of
/// the variable statement that holds it.
pub proof fn law_mutated_looks_into_loops(
    s: Stmt,
    p: Pattern,
    e: Expr,
    body: Block,
    x: Name,
    xs0: Seq<Name>,
    acc: Seq<Name>,
)
    requires
        s.kind == StmtKind::SVar(p, e),
        *e.kind == ExprKind::ELoop(body),
        has_name(mutated_in_stmts(body.ss@, xs0, acc), x),
    ensures
        has_name(mutated_in_stmt(s, xs0, acc), x),
{
}

/// What one statement of a sequence reports, the sequence reports.
pub proof fn law_mutated_looks_at_every_statement(
    ss: Seq<Stmt>,
    i: int,
    x: Name,
    xs0: Seq<Name>,
    acc: Seq<Name>,
)
    requires
        0 <= i < ss.len(),
        has_name(mutated_in_stmt(ss[i], xs0, acc), x),
    ensures
        has_name(mutated_in_stmts(ss, xs0, acc), x),
    decreases ss.len(),
{
    let init = ss.drop_last();
    lemma_stmt_collects_union(ss.last(), xs0, mutated_in_stmts(init, xs0, acc), x);
    if i < ss.len() - 1 {
        assert(init[i] == ss[i]);
        law_mutated_looks_at_every_statement(init, i, x, xs0, acc);
    } else {
        lemma_stmt_collects_union(ss.last(), xs0, acc, x);
        law_mutated_collects_union(init, xs0, acc, x);
    }
}

/// The expressions that the conversion of a variable statement's
/// expression handles: literals, definitions, variables and errors, and
/// calls, records, arrays and tuples that read nothing. Every other form
/// is to be renamed, which the conversion does not yet do.
pub open spec fn ssa_handled(e: Expr) -> bool {
    match *e.kind {
        ExprKind::EConst(_) => true,
        ExprKind::EDef(_, _) => true,
        ExprKind::EVar(_) => true,
        ExprKind::EError => true,
        ExprKind::EFunCallDirect(_, _, es) => es@.len() == 0,
        ExprKind::ERecord(xes) => xes@.len() == 0,
        ExprKind::EArray(es) => es@.len() == 0,
        ExprKind::ETuple(es) => es@.len() == 0,
        _ => false,
    }
}

/// `r` is the handled expression `e` rebuilt as it was: the same form,
/// type, origin, names, literal and type arguments.
pub open spec fn ssa_kept(e: Expr, r: Expr) -> bool {
    &&& r.t == e.t
    &&& r.info == e.info
    &&& match (*e.kind, *r.kind) {
        (ExprKind::EConst(c), ExprKind::EConst(d)) => c == d,
        (ExprKind::EDef(x, ts), ExprKind::EDef(y, us)) => x == y && us@ == ts@,
        (ExprKind::EVar(x), ExprKind::EVar(y)) => x == y,
        (ExprKind::EError, ExprKind::EError) => true,
        (ExprKind::EFunCallDirect(x, ts, _), ExprKind::EFunCallDirect(y, us, fs)) => x == y && us@ == ts@
            && fs@.len() == 0,
        (ExprKind::ERecord(_), ExprKind::ERecord(ys)) => ys@.len() == 0,
        (ExprKind::EArray(_), ExprKind::EArray(fs)) => fs@.len() == 0,
        (ExprKind::ETuple(_), ExprKind::ETuple(fs)) => fs@.len() == 0,
        _ => false,
    }
}

/// The conversion to single assignments of the expression of a variable
/// statement, on the expressions it handles (see `ssa_handled`), which it
/// keeps as they are.
pub fn visit_expr_stmt(e: &Expr) -> (r: Expr)
    requires
        ssa_handled(*e),
    ensures
        ssa_kept(*e, r),
{
    let info = e.info;
    let t = copy_type(&e.t);
    match &*e.kind {
        ExprKind::EConst(c) => ExprKind::EConst(c.copy()).with(t, info),
        ExprKind::EFunCallDirect(x, ts, _) => ExprKind::EFunCallDirect(copy_name(x), copy_types(ts), Vec::new()).with(t, info),
        ExprKind::EDef(x, ts) => ExprKind::EDef(copy_name(x), copy_types(ts)).with(t, info),
        ExprKind::ERecord(_) => ExprKind::ERecord(Vec::new()).with(t, info),
        ExprKind::EArray(_) => ExprKind::EArray(Vec::new()).with(t, info),
        ExprKind::EVar(x) => ExprKind::EVar(copy_name(x)).with(t, info),
        ExprKind::ETuple(_) => ExprKind::ETuple(Vec::new()).with(t, info),
        ExprKind::EError => ExprKind::EError.with(t, info),
        _ => {
            proof {
                assert(false);
            }
            ExprKind::EError.with(t, info)
        },
    }
}

} // verus!
