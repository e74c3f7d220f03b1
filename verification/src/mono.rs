//! Monomorphisation: the types of a program with every type parameter
//! replaced by the type it stands for in the instance being made, and
//! aliases replaced by the types they name; each variable read takes the
//! type its binding was given. Each nominal type and each called function
//! met, with its resolved type arguments, is recorded as an instance to
//! make; `instantiate_type` and `instantiate_func` then make one recorded
//! instance each, emitting its specialised declaration.
use crate::hir::copy_expr;
use crate::hir::copy_meta;
use crate::hir::copy_name;
use crate::hir::copy_type;
use crate::hir::copy_types;
use crate::hir::type_lists_eq;
use crate::hir::type_lists_equal;
use crate::hir::Block;
use crate::hir::Expr;
use crate::hir::ExprKind;
use crate::hir::Info;
use crate::hir::Meta;
use crate::hir::Name;
use crate::hir::Pattern;
use crate::hir::PatternKind;
use crate::hir::Stmt;
use crate::hir::StmtKind;
use crate::hir::Type;
use crate::hir::TypeKind;
use crate::ssa::contains_name;
use crate::ssa::has_name;
use vstd::prelude::*;

verus! {

/// The type that the innermost binding of the type parameter `x` in `gs`
/// stands for, if any.
pub open spec fn bound(gs: Seq<(Name, Type)>, x: Name) -> Option<Type>
    decreases gs.len(),
{
    if gs.len() == 0 {
        None
    } else if gs.last().0@ == x@ {
        Some(gs.last().1)
    } else {
        bound(gs.drop_last(), x)
    }
}

/// `r` is `t` with each type parameter replaced by the type it is bound to
/// in `gs` and each alias by the type it names; all else is kept.
pub open spec fn type_resolved(gs: Seq<(Name, Type)>, t: Type, r: Type) -> bool
    decreases t,
{
    match *t.kind {
        TypeKind::TAlias(_, _, a) => type_resolved(gs, a, r),
        TypeKind::TGeneric(x) => bound(gs, x) == Some(r),
        _ => match (*t.kind, *r.kind) {
            (TypeKind::TFun(ts, a), TypeKind::TFun(us, b)) => types_resolved(gs, ts@, us@) && type_resolved(gs, a, b),
            (TypeKind::TTuple(ts, c), TypeKind::TTuple(us, d)) => types_resolved(gs, ts@, us@) && c == d,
            (TypeKind::TRecord(a), TypeKind::TRecord(b)) => type_resolved(gs, a, b),
            (TypeKind::TNominal(x, ts), TypeKind::TNominal(y, us)) => x == y && types_resolved(gs, ts@, us@),
            (TypeKind::TRowEmpty, TypeKind::TRowEmpty) => true,
            (TypeKind::TRowExtend(xa, a), TypeKind::TRowExtend(yb, b)) => xa.0 == yb.0 && type_resolved(gs, xa.1, yb.1)
                && type_resolved(gs, a, b),
            (TypeKind::TRecordConcat(a0, a1), TypeKind::TRecordConcat(b0, b1)) => type_resolved(gs, a0, b0)
                && type_resolved(gs, a1, b1),
            (TypeKind::TArray(a, n), TypeKind::TArray(b, m)) => type_resolved(gs, a, b) && n == m,
            (TypeKind::TArrayConcat(a0, a1), TypeKind::TArrayConcat(b0, b1)) => type_resolved(gs, a0, b0)
                && type_resolved(gs, a1, b1),
            (TypeKind::TUnit, TypeKind::TUnit) => true,
            (TypeKind::TNever, TypeKind::TNever) => true,
            (TypeKind::TVar(x), TypeKind::TVar(y)) => x == y,
            (TypeKind::TError, TypeKind::TError) => true,
            _ => false,
        },
    }
}

/// Each type of `rs` is resolved from the type of `ts` at its place.
pub open spec fn types_resolved(gs: Seq<(Name, Type)>, ts: Seq<Type>, rs: Seq<Type>) -> bool
    decreases ts,
{
    if ts.len() == 0 {
        rs.len() == 0
    } else {
        &&& rs.len() == ts.len()
        &&& types_resolved(gs, ts.drop_last(), rs.drop_last())
        &&& type_resolved(gs, ts.last(), rs.last())
    }
}

/// Every type parameter in `t` is bound in `gs`.
pub open spec fn resolvable(gs: Seq<(Name, Type)>, t: Type) -> bool
    decreases t,
{
    match *t.kind {
        TypeKind::TFun(ts, a) => all_resolvable(gs, ts@) && resolvable(gs, a),
        TypeKind::TTuple(ts, _) => all_resolvable(gs, ts@),
        TypeKind::TRecord(a) => resolvable(gs, a),
        TypeKind::TNominal(_, ts) => all_resolvable(gs, ts@),
        TypeKind::TAlias(_, _, a) => resolvable(gs, a),
        TypeKind::TRowExtend(xa, a) => resolvable(gs, xa.1) && resolvable(gs, a),
        TypeKind::TRecordConcat(a0, a1) => resolvable(gs, a0) && resolvable(gs, a1),
        TypeKind::TGeneric(x) => bound(gs, x) is Some,
        TypeKind::TArray(a, _) => resolvable(gs, a),
        TypeKind::TArrayConcat(a0, a1) => resolvable(gs, a0) && resolvable(gs, a1),
        _ => true,
    }
}

/// Every type parameter in the types of `ts` is bound in `gs`.
pub open spec fn all_resolvable(gs: Seq<(Name, Type)>, ts: Seq<Type>) -> bool
    decreases ts,
{
    if ts.len() == 0 {
        true
    } else {
        all_resolvable(gs, ts.drop_last()) && resolvable(gs, ts.last())
    }
}

/// `t` holds no type parameter and no alias.
pub open spec fn plain(t: Type) -> bool
    decreases t,
{
    match *t.kind {
        TypeKind::TFun(ts, a) => all_plain(ts@) && plain(a),
        TypeKind::TTuple(ts, _) => all_plain(ts@),
        TypeKind::TRecord(a) => plain(a),
        TypeKind::TNominal(_, ts) => all_plain(ts@),
        TypeKind::TAlias(_, _, _) => false,
        TypeKind::TRowExtend(xa, a) => plain(xa.1) && plain(a),
        TypeKind::TRecordConcat(a0, a1) => plain(a0) && plain(a1),
        TypeKind::TGeneric(_) => false,
        TypeKind::TArray(a, _) => plain(a),
        TypeKind::TArrayConcat(a0, a1) => plain(a0) && plain(a1),
        _ => true,
    }
}

/// The types of `ts` hold no type parameter and no alias.
pub open spec fn all_plain(ts: Seq<Type>) -> bool
    decreases ts,
{
    if ts.len() == 0 {
        true
    } else {
        all_plain(ts.drop_last()) && plain(ts.last())
    }
}

/// Every type that a parameter of `gs` is bound to is plain.
pub open spec fn plain_bindings(gs: Seq<(Name, Type)>) -> bool {
    forall|i: int| 0 <= i < gs.len() ==> #[trigger] plain(gs[i].1)
}

/// The instance `inst` is `(x, us)`: the same name, and the same type
/// arguments or ones equal one by one.
pub open spec fn instance_matches(inst: (Name, Vec<Type>), x: Name, us: Seq<Type>) -> bool {
    inst.0@ == x@ && (inst.1@ == us || type_lists_equal(inst.1@, us))
}

/// The instance `(x, us)` is among `insts`.
pub open spec fn recorded(insts: Seq<(Name, Vec<Type>)>, x: Name, us: Seq<Type>) -> bool {
    exists|i: int| 0 <= i < insts.len() && #[trigger] instance_matches(insts[i], x, us)
}

/// `new` holds the instances of `old`, in the same places.
pub open spec fn extends_insts(old: Seq<(Name, Vec<Type>)>, new: Seq<(Name, Vec<Type>)>) -> bool {
    &&& old.len() <= new.len()
    &&& forall|i: int| 0 <= i < old.len() ==> #[trigger] new[i] == old[i]
}

/// The type `t` holds the nominal type `x` with the type arguments `us`.
pub open spec fn nominal_in(t: Type, x: Name, us: Seq<Type>) -> bool
    decreases t,
{
    match *t.kind {
        TypeKind::TFun(ts, a) => nominal_in_list(ts@, x, us) || nominal_in(a, x, us),
        TypeKind::TTuple(ts, _) => nominal_in_list(ts@, x, us),
        TypeKind::TRecord(a) => nominal_in(a, x, us),
        TypeKind::TNominal(y, ts) => (y@ == x@ && ts@ == us) || nominal_in_list(ts@, x, us),
        TypeKind::TAlias(_, _, a) => nominal_in(a, x, us),
        TypeKind::TRowExtend(xa, a) => nominal_in(xa.1, x, us) || nominal_in(a, x, us),
        TypeKind::TRecordConcat(a0, a1) => nominal_in(a0, x, us) || nominal_in(a1, x, us),
        TypeKind::TArray(a, _) => nominal_in(a, x, us),
        TypeKind::TArrayConcat(a0, a1) => nominal_in(a0, x, us) || nominal_in(a1, x, us),
        _ => false,
    }
}

/// Some type of `ts` holds the nominal type `x` with the arguments `us`.
pub open spec fn nominal_in_list(ts: Seq<Type>, x: Name, us: Seq<Type>) -> bool
    decreases ts,
{
    if ts.len() == 0 {
        false
    } else {
        nominal_in_list(ts.drop_last(), x, us) || nominal_in(ts.last(), x, us)
    }
}

/// Every nominal type in `t` is a recorded instance.
pub open spec fn nominals_recorded(insts: Seq<(Name, Vec<Type>)>, t: Type) -> bool {
    forall|x: Name, us: Seq<Type>| #[trigger] nominal_in(t, x, us) ==> recorded(insts, x, us)
}

/// Every nominal type in the types of `ts` is a recorded instance.
pub open spec fn nominals_recorded_list(insts: Seq<(Name, Vec<Type>)>, ts: Seq<Type>) -> bool {
    forall|x: Name, us: Seq<Type>| #[trigger] nominal_in_list(ts, x, us) ==> recorded(insts, x, us)
}

/// Every nominal type in what `bs` binds is a recorded instance.
pub open spec fn bindings_recorded(insts: Seq<(Name, Vec<Type>)>, bs: Seq<(Name, Type)>) -> bool {
    forall|i: int| 0 <= i < bs.len() ==> #[trigger] nominals_recorded(insts, bs[i].1)
}

/// Every nominal type in the type arguments of the instances `of` is a
/// recorded type instance of `insts`.
pub open spec fn insts_recorded(insts: Seq<(Name, Vec<Type>)>, of: Seq<(Name, Vec<Type>)>) -> bool {
    forall|i: int| 0 <= i < of.len() ==> #[trigger] nominals_recorded_list(insts, of[i].1@)
}

/// Lemma: instances whose arguments' nominal types are recorded keep them
/// recorded as instances are added.
proof fn lemma_insts_grow(old: Seq<(Name, Vec<Type>)>, new: Seq<(Name, Vec<Type>)>, of: Seq<(Name, Vec<Type>)>)
    requires
        extends_insts(old, new),
        insts_recorded(old, of),
    ensures
        insts_recorded(new, of),
{
    assert forall|i: int| 0 <= i < of.len() implies #[trigger] nominals_recorded_list(new, of[i].1@) by {
        lemma_nominals_list_grow(old, new, of[i].1@);
    }
}

/// Lemma: what is recorded stays recorded as instances are added.
proof fn lemma_recorded_grows(old: Seq<(Name, Vec<Type>)>, new: Seq<(Name, Vec<Type>)>)
    requires
        extends_insts(old, new),
    ensures
        forall|x: Name, us: Seq<Type>| #[trigger] recorded(new, x, us) || !recorded(old, x, us),
{
    assert forall|x: Name, us: Seq<Type>| #[trigger] recorded(new, x, us) || !recorded(old, x, us) by {
        if recorded(old, x, us) {
            let i = choose|i: int| 0 <= i < old.len() && #[trigger] instance_matches(old[i], x, us);
            assert(new[i] == old[i]);
        }
    }
}

/// Lemma: a type whose nominal types are recorded keeps them recorded as
/// instances are added.
proof fn lemma_nominals_grow(old: Seq<(Name, Vec<Type>)>, new: Seq<(Name, Vec<Type>)>, t: Type)
    requires
        extends_insts(old, new),
        nominals_recorded(old, t),
    ensures
        nominals_recorded(new, t),
{
    lemma_recorded_grows(old, new);
}

/// Lemma: a list of types whose nominal types are recorded keeps them
/// recorded as instances are added.
proof fn lemma_nominals_list_grow(old: Seq<(Name, Vec<Type>)>, new: Seq<(Name, Vec<Type>)>, ts: Seq<Type>)
    requires
        extends_insts(old, new),
        nominals_recorded_list(old, ts),
    ensures
        nominals_recorded_list(new, ts),
{
    lemma_recorded_grows(old, new);
}

/// Lemma: bindings whose nominal types are recorded keep them recorded as
/// instances are added.
proof fn lemma_bindings_grow(old: Seq<(Name, Vec<Type>)>, new: Seq<(Name, Vec<Type>)>, bs: Seq<(Name, Type)>)
    requires
        extends_insts(old, new),
        bindings_recorded(old, bs),
    ensures
        bindings_recorded(new, bs),
{
    assert forall|i: int| 0 <= i < bs.len() implies #[trigger] nominals_recorded(new, bs[i].1) by {
        lemma_nominals_grow(old, new, bs[i].1);
    }
}

/// Lemma: a binding found is one of the bindings.
proof fn lemma_bound_is_binding(gs: Seq<(Name, Type)>, x: Name)
    ensures
        bound(gs, x) matches Some(t) ==> exists|i: int| 0 <= i < gs.len() && #[trigger] gs[i].1 == t,
    decreases gs.len(),
{
    if gs.len() > 0 && gs.last().0@ != x@ {
        lemma_bound_is_binding(gs.drop_last(), x);
        if bound(gs, x) is Some {
            let i = choose|i: int| 0 <= i < gs.drop_last().len() && #[trigger] gs.drop_last()[i].1 == bound(gs, x).unwrap();
            assert(gs[i].1 == gs.drop_last()[i].1);
        }
    } else if gs.len() > 0 {
        assert(gs[gs.len() - 1].1 == gs.last().1);
    }
}

/// The instance `inst` equals `(x, us)`: the same name, and type
/// arguments equal one by one (see `types_equal`).
pub open spec fn equal_instance(inst: (Name, Vec<Type>), x: Name, us: Seq<Type>) -> bool {
    inst.0@ == x@ && type_lists_equal(inst.1@, us)
}

/// An instance equal to `(x, us)` is among `insts`; recording `(x, us)`
/// then adds nothing.
pub open spec fn equal_recorded(insts: Seq<(Name, Vec<Type>)>, x: Name, us: Seq<Type>) -> bool {
    exists|i: int| 0 <= i < insts.len() && #[trigger] equal_instance(insts[i], x, us)
}

/// `new` is `old` with the instance `(x, us)` added at the end.
pub open spec fn added_instance(old: Seq<(Name, Vec<Type>)>, new: Seq<(Name, Vec<Type>)>, x: Name, us: Seq<Type>) -> bool {
    &&& new.len() == old.len() + 1
    &&& new.drop_last() == old
    &&& new.last().0 == x
    &&& new.last().1@ == us
}

/// Records the instance `(x, us)` in `insts` unless an equal one is there:
/// one with the same name and type arguments equal one by one.
fn record_instance(insts: &mut Vec<(Name, Vec<Type>)>, x: &Name, us: &Vec<Type>)
    ensures
        extends_insts(old(insts)@, final(insts)@),
        recorded(final(insts)@, *x, us@),
        equal_recorded(old(insts)@, *x, us@) ==> final(insts)@ == old(insts)@,
        !equal_recorded(old(insts)@, *x, us@) ==> added_instance(old(insts)@, final(insts)@, *x, us@),
{
    let mut i: usize = 0;
    while i < insts.len()
        invariant
            i <= insts@.len(),
            forall|j: int| 0 <= j < i ==> !#[trigger] equal_instance(insts@[j], *x, us@),
        decreases insts.len() - i,
    {
        if insts[i].0 == *x && type_lists_eq(&insts[i].1, us) {
            proof {
                assert(instance_matches(insts@[i as int], *x, us@));
                assert(equal_instance(insts@[i as int], *x, us@));
            }
            return;
        }
        i = i + 1;
    }
    let ghost before = insts@;
    insts.push((copy_name(x), copy_types(us)));
    proof {
        assert(instance_matches(insts@[before.len() as int], *x, us@));
        assert(insts@.drop_last() =~= before);
    }
}

/// What the type parameters and the variables in scope stand for, the
/// innermost binding of each last.
pub struct Context {
    generics: Vec<(Name, Type)>,
    vars: Vec<(Name, Type)>,
    types: Vec<(Name, Vec<Type>)>,
    funcs: Vec<(Name, Vec<Type>)>,
    stmts: Vec<Stmt>,
    types_done: usize,
    funcs_done: usize,
}

impl View for Context {
    type V = Seq<(Name, Type)>;

    /// The bindings of type parameters.
    closed spec fn view(&self) -> Seq<(Name, Type)> {
        self.generics@
    }
}

/// The innermost binding of `x` in `bs`, looked for from the end.
fn find_binding(bs: &Vec<(Name, Type)>, x: &Name) -> (r: Option<Type>)
    ensures
        r == bound(bs@, *x),
{
    let mut i: usize = bs.len();
    proof {
        assert(bs@.take(i as int) =~= bs@);
    }
    while i > 0
        invariant
            i <= bs@.len(),
            bound(bs@, *x) == bound(bs@.take(i as int), *x),
        decreases i,
    {
        proof {
            assert(bs@.take(i as int).drop_last() =~= bs@.take(i - 1));
            assert(bs@.take(i as int).last() == bs@[i - 1]);
        }
        if bs[i - 1].0 == *x {
            return Some(copy_type(&bs[i - 1].1));
        }
        i = i - 1;
    }
    None
}

impl Context {
    /// The bindings of variables, each to its type.
    pub closed spec fn vars(&self) -> Seq<(Name, Type)> {
        self.vars@
    }

    /// The type instances recorded so far: each a nominal type's name and
    /// its resolved type arguments, in the order first met.
    pub closed spec fn type_instances(&self) -> Seq<(Name, Vec<Type>)> {
        self.types@
    }

    /// The function instances recorded so far: each a called function's
    /// name and its resolved type arguments, in the order first met.
    pub closed spec fn func_instances(&self) -> Seq<(Name, Vec<Type>)> {
        self.funcs@
    }

    /// Every nominal type in what a type parameter or a variable is bound
    /// to is a recorded type instance.
    pub closed spec fn covered(&self) -> bool {
        &&& bindings_recorded(self.types@, self.generics@)
        &&& bindings_recorded(self.types@, self.vars@)
        &&& insts_recorded(self.types@, self.types@)
        &&& insts_recorded(self.types@, self.funcs@)
        &&& self.types_done <= self.types@.len()
        &&& self.funcs_done <= self.funcs@.len()
    }

    /// The specialised declarations emitted so far, in order.
    pub closed spec fn stmts(&self) -> Seq<Stmt> {
        self.stmts@
    }

    /// How many of the type instances have been made.
    pub closed spec fn types_done(&self) -> int {
        self.types_done as int
    }

    /// How many of the function instances have been made.
    pub closed spec fn funcs_done(&self) -> int {
        self.funcs_done as int
    }

    /// `self` holds the instances of `old`, in the same places, and
    /// perhaps more after them.
    pub open spec fn extends(&self, old: Context) -> bool {
        &&& extends_insts(old.type_instances(), self.type_instances())
        &&& extends_insts(old.func_instances(), self.func_instances())
        &&& self.stmts() == old.stmts()
        &&& self.types_done() == old.types_done()
        &&& self.funcs_done() == old.funcs_done()
    }

    /// A context that binds nothing and has recorded nothing.
    pub fn new() -> (c: Context)
        ensures
            c@ == Seq::<(Name, Type)>::empty(),
            c.vars() == Seq::<(Name, Type)>::empty(),
            c.type_instances() == Seq::<(Name, Vec<Type>)>::empty(),
            c.func_instances() == Seq::<(Name, Vec<Type>)>::empty(),
            c.stmts() == Seq::<Stmt>::empty(),
            c.types_done() == 0,
            c.funcs_done() == 0,
            c.covered(),
    {
        Context {
            generics: Vec::new(),
            vars: Vec::new(),
            types: Vec::new(),
            funcs: Vec::new(),
            stmts: Vec::new(),
            types_done: 0,
            funcs_done: 0,
        }
    }

    /// Binds the type parameter `x` to `t`, inside the bindings so far;
    /// the nominal types in `t` are to be recorded already.
    pub fn bind_generic(&mut self, x: Name, t: Type)
        requires
            old(self).covered(),
            nominals_recorded(old(self).type_instances(), t),
        ensures
            final(self)@ == old(self)@.push((x, t)),
            final(self).vars() == old(self).vars(),
            final(self).type_instances() == old(self).type_instances(),
            final(self).func_instances() == old(self).func_instances(),
            final(self).covered(),
            final(self).extends(*old(self)),
    {
        self.generics.push((x, t));
    }

    /// Binds the variable `x` to the type `t`, inside the bindings so far;
    /// the nominal types in `t` are to be recorded already.
    pub fn bind_var(&mut self, x: Name, t: Type)
        requires
            old(self).covered(),
            nominals_recorded(old(self).type_instances(), t),
        ensures
            final(self)@ == old(self)@,
            final(self).vars() == old(self).vars().push((x, t)),
            final(self).type_instances() == old(self).type_instances(),
            final(self).func_instances() == old(self).func_instances(),
            final(self).covered(),
            final(self).extends(*old(self)),
    {
        self.vars.push((x, t));
    }

    /// Records the type instance `(x, us)` unless an equal one is recorded.
    pub fn record_type(&mut self, x: &Name, us: &Vec<Type>)
        requires
            old(self).covered(),
            nominals_recorded_list(old(self).type_instances(), us@),
        ensures
            final(self)@ == old(self)@,
            final(self).vars() == old(self).vars(),
            final(self).func_instances() == old(self).func_instances(),
            extends_insts(old(self).type_instances(), final(self).type_instances()),
            recorded(final(self).type_instances(), *x, us@),
            equal_recorded(old(self).type_instances(), *x, us@) ==> final(self).type_instances()
                == old(self).type_instances(),
            !equal_recorded(old(self).type_instances(), *x, us@) ==> added_instance(
                old(self).type_instances(),
                final(self).type_instances(),
                *x,
                us@,
            ),
            final(self).covered(),
            final(self).extends(*old(self)),
    {
        let ghost before = self.types@;
        record_instance(&mut self.types, x, us);
        proof {
            lemma_bindings_grow(before, self.types@, self.generics@);
            lemma_bindings_grow(before, self.types@, self.vars@);
            lemma_insts_grow(before, self.types@, self.funcs@);
            lemma_insts_grow(before, self.types@, before);
            lemma_nominals_list_grow(before, self.types@, us@);
            assert forall|i: int| 0 <= i < self.types@.len() implies #[trigger] nominals_recorded_list(
                self.types@,
                self.types@[i].1@,
            ) by {
                if i < before.len() {
                    assert(self.types@[i] == before[i]);
                }
            }
        }
    }

    /// Records the function instance `(x, us)` unless an equal one is
    /// recorded.
    pub fn record_func(&mut self, x: &Name, us: &Vec<Type>)
        requires
            old(self).covered(),
            nominals_recorded_list(old(self).type_instances(), us@),
        ensures
            final(self)@ == old(self)@,
            final(self).vars() == old(self).vars(),
            final(self).type_instances() == old(self).type_instances(),
            extends_insts(old(self).func_instances(), final(self).func_instances()),
            recorded(final(self).func_instances(), *x, us@),
            equal_recorded(old(self).func_instances(), *x, us@) ==> final(self).func_instances()
                == old(self).func_instances(),
            !equal_recorded(old(self).func_instances(), *x, us@) ==> added_instance(
                old(self).func_instances(),
                final(self).func_instances(),
                *x,
                us@,
            ),
            final(self).covered(),
            final(self).extends(*old(self)),
    {
        let ghost before = self.funcs@;
        record_instance(&mut self.funcs, x, us);
        proof {
            assert forall|i: int| 0 <= i < self.funcs@.len() implies #[trigger] nominals_recorded_list(
                self.types@,
                self.funcs@[i].1@,
            ) by {
                if i < before.len() {
                    assert(self.funcs@[i] == before[i]);
                }
            }
        }
    }

    /// The type that the innermost binding of the type parameter `x`
    /// stands for, if any.
    pub fn find_generic(&self, x: &Name) -> (r: Option<Type>)
        ensures
            r == bound(self@, *x),
    {
        find_binding(&self.generics, x)
    }

    /// The type of the innermost binding of the variable `x`, if any.
    pub fn find_var(&self, x: &Name) -> (r: Option<Type>)
        ensures
            r == bound(self.vars(), *x),
    {
        find_binding(&self.vars, x)
    }
}

/// Lemma: a resolved type of plain bindings is plain.
proof fn lemma_resolved_plain(gs: Seq<(Name, Type)>, t: Type, r: Type)
    requires
        plain_bindings(gs),
        type_resolved(gs, t, r),
    ensures
        plain(r),
    decreases t,
{
    match &*t.kind {
        TypeKind::TAlias(_, _, a) => lemma_resolved_plain(gs, *a, r),
        TypeKind::TGeneric(x) => lemma_bound_plain(gs, *x),
        _ => match (&*t.kind, &*r.kind) {
            (TypeKind::TFun(ts, a), TypeKind::TFun(us, b)) => {
                lemma_all_resolved_plain(gs, ts@, us@);
                lemma_resolved_plain(gs, *a, *b);
            },
            (TypeKind::TTuple(ts, _), TypeKind::TTuple(us, _)) => lemma_all_resolved_plain(gs, ts@, us@),
            (TypeKind::TRecord(a), TypeKind::TRecord(b)) => lemma_resolved_plain(gs, *a, *b),
            (TypeKind::TNominal(_, ts), TypeKind::TNominal(_, us)) => lemma_all_resolved_plain(gs, ts@, us@),
            (TypeKind::TRowExtend(xa, a), TypeKind::TRowExtend(yb, b)) => {
                lemma_resolved_plain(gs, xa.1, yb.1);
                lemma_resolved_plain(gs, *a, *b);
            },
            (TypeKind::TRecordConcat(a0, a1), TypeKind::TRecordConcat(b0, b1)) => {
                lemma_resolved_plain(gs, *a0, *b0);
                lemma_resolved_plain(gs, *a1, *b1);
            },
            (TypeKind::TArray(a, _), TypeKind::TArray(b, _)) => lemma_resolved_plain(gs, *a, *b),
            (TypeKind::TArrayConcat(a0, a1), TypeKind::TArrayConcat(b0, b1)) => {
                lemma_resolved_plain(gs, *a0, *b0);
                lemma_resolved_plain(gs, *a1, *b1);
            },
            _ => {},
        },
    }
}

/// Lemma: types resolved from a list under plain bindings are plain.
proof fn lemma_all_resolved_plain(gs: Seq<(Name, Type)>, ts: Seq<Type>, rs: Seq<Type>)
    requires
        plain_bindings(gs),
        types_resolved(gs, ts, rs),
    ensures
        all_plain(rs),
    decreases ts,
{
    if ts.len() > 0 {
        lemma_all_resolved_plain(gs, ts.drop_last(), rs.drop_last());
        lemma_resolved_plain(gs, ts.last(), rs.last());
    }
}

/// Lemma: what a parameter is bound to under plain bindings is plain.
proof fn lemma_bound_plain(gs: Seq<(Name, Type)>, x: Name)
    requires
        plain_bindings(gs),
    ensures
        bound(gs, x) matches Some(t) ==> plain(t),
    decreases gs.len(),
{
    if gs.len() > 0 {
        assert(plain(gs[gs.len() - 1].1));
        assert forall|i: int| 0 <= i < gs.drop_last().len() implies #[trigger] plain(gs.drop_last()[i].1) by {
            assert(plain(gs[i].1));
        }
        lemma_bound_plain(gs.drop_last(), x);
    }
}

/// The nominal types directly under the node of `r` are recorded, as is
/// `r` itself where it is a nominal type.
pub open spec fn children_recorded(insts: Seq<(Name, Vec<Type>)>, r: Type) -> bool {
    match *r.kind {
        TypeKind::TFun(ts, a) => nominals_recorded_list(insts, ts@) && nominals_recorded(insts, a),
        TypeKind::TTuple(ts, _) => nominals_recorded_list(insts, ts@),
        TypeKind::TRecord(a) => nominals_recorded(insts, a),
        TypeKind::TNominal(x, ts) => recorded(insts, x, ts@) && nominals_recorded_list(insts, ts@),
        TypeKind::TAlias(_, _, a) => nominals_recorded(insts, a),
        TypeKind::TRowExtend(xa, a) => nominals_recorded(insts, xa.1) && nominals_recorded(insts, a),
        TypeKind::TRecordConcat(a0, a1) => nominals_recorded(insts, a0) && nominals_recorded(insts, a1),
        TypeKind::TArray(a, _) => nominals_recorded(insts, a),
        TypeKind::TArrayConcat(a0, a1) => nominals_recorded(insts, a0) && nominals_recorded(insts, a1),
        _ => true,
    }
}

/// Lemma: a type whose node and children are recorded has all its nominal
/// types recorded.
proof fn lemma_node_recorded(insts: Seq<(Name, Vec<Type>)>, r: Type)
    requires
        children_recorded(insts, r),
    ensures
        nominals_recorded(insts, r),
{
    assert forall|x: Name, us: Seq<Type>| #[trigger] nominal_in(r, x, us) implies recorded(insts, x, us) by {
        match &*r.kind {
            TypeKind::TNominal(y, ts) => {
                if y@ == x@ && ts@ == us {
                    let i = choose|i: int| 0 <= i < insts.len() && #[trigger] instance_matches(insts[i], *y, ts@);
                    assert(instance_matches(insts[i], x, us));
                } else {
                    assert(nominal_in_list(ts@, x, us));
                }
            },
            TypeKind::TFun(ts, a) => {
                if nominal_in_list(ts@, x, us) {
                } else {
                    assert(nominal_in(*a, x, us));
                }
            },
            TypeKind::TTuple(ts, _) => {
                assert(nominal_in_list(ts@, x, us));
            },
            TypeKind::TRecord(a) => {
                assert(nominal_in(*a, x, us));
            },
            TypeKind::TAlias(_, _, a) => {
                assert(nominal_in(*a, x, us));
            },
            TypeKind::TRowExtend(xa, a) => {
                if nominal_in(xa.1, x, us) {
                } else {
                    assert(nominal_in(*a, x, us));
                }
            },
            TypeKind::TRecordConcat(a0, a1) => {
                if nominal_in(*a0, x, us) {
                } else {
                    assert(nominal_in(*a1, x, us));
                }
            },
            TypeKind::TArray(a, _) => {
                assert(nominal_in(*a, x, us));
            },
            TypeKind::TArrayConcat(a0, a1) => {
                if nominal_in(*a0, x, us) {
                } else {
                    assert(nominal_in(*a1, x, us));
                }
            },
            _ => {},
        }
    }
}

/// Lemma: a list with one more type holds the nominal types of the list
/// and of the type.
proof fn lemma_nominals_push(insts: Seq<(Name, Vec<Type>)>, ts: Seq<Type>, u: Type)
    requires
        nominals_recorded_list(insts, ts),
        nominals_recorded(insts, u),
    ensures
        nominals_recorded_list(insts, ts.push(u)),
{
    assert(ts.push(u).drop_last() =~= ts);
    assert forall|x: Name, us: Seq<Type>| #[trigger] nominal_in_list(ts.push(u), x, us) implies recorded(insts, x, us) by {
        assert(nominal_in_list(ts, x, us) || nominal_in(u, x, us));
    }
}

/// The type `t` with each type parameter replaced by the type it stands for
/// in `ctx` and each alias by the type it names. Every type parameter of
/// `t` must be bound. Where what the parameters stand for holds no
/// parameter or alias, neither does the result. Each nominal type of the
/// result is recorded as a type instance.
pub fn visit_type(ctx: &mut Context, t: &Type, info: Info) -> (r: Type)
    requires
        resolvable(old(ctx)@, *t),
        old(ctx).covered(),
    ensures
        final(ctx)@ == old(ctx)@,
        final(ctx).vars() == old(ctx).vars(),
        final(ctx).func_instances() == old(ctx).func_instances(),
        extends_insts(old(ctx).type_instances(), final(ctx).type_instances()),
        final(ctx).covered(),
        final(ctx).extends(*old(ctx)),
        type_resolved(old(ctx)@, *t, r),
        plain_bindings(old(ctx)@) ==> plain(r),
        nominals_recorded(final(ctx).type_instances(), r),
    decreases *t,
{
    let r = match &*t.kind {
        TypeKind::TFun(ts, a) => {
            let us = visit_types(ctx, ts, info);
            let ghost mid = ctx.types@;
            let b = visit_type(ctx, a, info);
            proof {
                lemma_nominals_list_grow(mid, ctx.types@, us@);
            }
            Type::from(TypeKind::TFun(us, b))
        },
        TypeKind::TRecord(a) => {
            let b = visit_type(ctx, a, info);
            Type::from(TypeKind::TRecord(b))
        },
        TypeKind::TRecordConcat(a0, a1) => {
            let b0 = visit_type(ctx, a0, info);
            let ghost mid = ctx.types@;
            let b1 = visit_type(ctx, a1, info);
            proof {
                lemma_nominals_grow(mid, ctx.types@, b0);
            }
            Type::from(TypeKind::TRecordConcat(b0, b1))
        },
        TypeKind::TNominal(x, ts) => {
            let us = visit_types(ctx, ts, info);
            let ghost mid = ctx.types@;
            ctx.record_type(x, &us);
            proof {
                lemma_nominals_list_grow(mid, ctx.types@, us@);
            }
            Type::from(TypeKind::TNominal(copy_name(x), us))
        },
        TypeKind::TGeneric(x) => match ctx.find_generic(x) {
            Some(b) => {
                proof {
                    lemma_bound_is_binding(ctx.generics@, *x);
                    let i = choose|i: int| 0 <= i < ctx.generics@.len() && #[trigger] ctx.generics@[i].1 == b;
                    assert(nominals_recorded(ctx.types@, ctx.generics@[i].1));
                }
                b
            },
            None => {
                proof {
                    assert(false);
                }
                copy_type(t)
            },
        },
        TypeKind::TRowEmpty => Type::from(TypeKind::TRowEmpty),
        TypeKind::TRowExtend(xa, a) => {
            let b1 = visit_type(ctx, &xa.1, info);
            let ghost mid = ctx.types@;
            let b = visit_type(ctx, a, info);
            proof {
                lemma_nominals_grow(mid, ctx.types@, b1);
            }
            Type::from(TypeKind::TRowExtend((copy_name(&xa.0), b1), b))
        },
        TypeKind::TTuple(ts, c) => {
            let us = visit_types(ctx, ts, info);
            Type::from(TypeKind::TTuple(us, *c))
        },
        TypeKind::TAlias(_, _, a) => visit_type(ctx, a, info),
        TypeKind::TArray(a, n) => {
            let b = visit_type(ctx, a, info);
            Type::from(TypeKind::TArray(b, *n))
        },
        TypeKind::TArrayConcat(a0, a1) => {
            let b0 = visit_type(ctx, a0, info);
            let ghost mid = ctx.types@;
            let b1 = visit_type(ctx, a1, info);
            proof {
                lemma_nominals_grow(mid, ctx.types@, b0);
            }
            Type::from(TypeKind::TArrayConcat(b0, b1))
        },
        TypeKind::TUnit => Type::from(TypeKind::TUnit),
        TypeKind::TNever => Type::from(TypeKind::TNever),
        TypeKind::TVar(x) => Type::from(TypeKind::TVar(copy_name(x))),
        TypeKind::TError => Type::from(TypeKind::TError),
    };
    proof {
        if plain_bindings(old(ctx)@) {
            lemma_resolved_plain(old(ctx)@, *t, r);
        }
        match &*t.kind {
            TypeKind::TGeneric(_) => {},
            TypeKind::TAlias(_, _, _) => {},
            _ => lemma_node_recorded(ctx.types@, r),
        }
    }
    r
}

/// Each type of `ts` visited (see `visit_type`), in order.
pub fn visit_types(ctx: &mut Context, ts: &Vec<Type>, info: Info) -> (r: Vec<Type>)
    requires
        all_resolvable(old(ctx)@, ts@),
        old(ctx).covered(),
    ensures
        final(ctx)@ == old(ctx)@,
        final(ctx).vars() == old(ctx).vars(),
        final(ctx).func_instances() == old(ctx).func_instances(),
        extends_insts(old(ctx).type_instances(), final(ctx).type_instances()),
        final(ctx).covered(),
        final(ctx).extends(*old(ctx)),
        types_resolved(old(ctx)@, ts@, r@),
        nominals_recorded_list(final(ctx).type_instances(), r@),
    decreases *ts,
{
    let ghost start = ctx.types@;
    let mut r: Vec<Type> = Vec::new();
    let mut i: usize = 0;
    while i < ts.len()
        invariant
            i <= ts@.len(),
            ctx@ == old(ctx)@,
            ctx.vars() == old(ctx).vars(),
            ctx.func_instances() == old(ctx).func_instances(),
            extends_insts(start, ctx.types@),
            start == old(ctx).type_instances(),
            ctx.covered(),
            ctx.extends(*old(ctx)),
            all_resolvable(ctx@, ts@),
            types_resolved(ctx@, ts@.take(i as int), r@),
            nominals_recorded_list(ctx.types@, r@),
        decreases ts.len() - i,
    {
        proof {
            assert(decreases_to!(*ts => ts@[i as int]));
            lemma_all_resolvable_at(ctx@, ts@, i as int);
        }
        let ghost mid = ctx.types@;
        let u = visit_type(ctx, &ts[i], info);
        let ghost before = r@;
        proof {
            lemma_nominals_list_grow(mid, ctx.types@, before);
            lemma_nominals_push(ctx.types@, before, u);
        }
        r.push(u);
        proof {
            assert(ts@.take(i + 1).drop_last() =~= ts@.take(i as int));
            assert(r@.drop_last() =~= before);
        }
        i = i + 1;
    }
    proof {
        assert(ts@.take(ts@.len() as int) =~= ts@);
    }
    r
}

/// Lemma: every type of a list whose parameters are all bound has its
/// parameters bound.
proof fn lemma_all_resolvable_at(gs: Seq<(Name, Type)>, ts: Seq<Type>, i: int)
    requires
        all_resolvable(gs, ts),
        0 <= i < ts.len(),
    ensures
        resolvable(gs, ts[i]),
    decreases ts.len(),
{
    if i < ts.len() - 1 {
        lemma_all_resolvable_at(gs, ts.drop_last(), i);
    }
}

/// `new` holds the bindings of `old`, in the same places.
pub open spec fn extends_vars(old: Seq<(Name, Type)>, new: Seq<(Name, Type)>) -> bool {
    &&& old.len() <= new.len()
    &&& forall|i: int| 0 <= i < old.len() ==> #[trigger] new[i] == old[i]
}

/// The names of a list of bindings, in order.
pub open spec fn names_of(vs: Seq<(Name, Type)>) -> Seq<Name> {
    vs.map_values(|b: (Name, Type)| b.0)
}

/// The variable names in scope after the pattern `p` is bound.
pub open spec fn pattern_names(ns: Seq<Name>, p: Pattern) -> Seq<Name> {
    match *p.kind {
        PatternKind::PVar(x) => ns.push(x),
        _ => ns,
    }
}

/// The variable names in scope after the patterns of `pes` are bound in
/// order.
pub open spec fn pairs_names(ns: Seq<Name>, pes: Seq<(Pattern, Expr)>) -> Seq<Name>
    decreases pes.len(),
{
    if pes.len() == 0 {
        ns
    } else {
        pattern_names(pairs_names(ns, pes.drop_last()), pes.last().0)
    }
}

/// The variable names in scope after the expression `e` is visited: those
/// its blocks and loop variables bind stay in scope.
pub open spec fn expr_names(ns: Seq<Name>, e: Expr) -> Seq<Name>
    decreases e,
{
    match *e.kind {
        ExprKind::EIfElse(_, b0, b1) => block_names(block_names(ns, b0), b1),
        ExprKind::ESsaLoop(pes, b) => block_names(pairs_names(ns, pes@), b),
        ExprKind::ESsaContinue(pes) => pairs_names(ns, pes@),
        _ => ns,
    }
}

/// The variable names in scope after the block `b` is visited.
pub open spec fn block_names(ns: Seq<Name>, b: Block) -> Seq<Name>
    decreases b,
{
    expr_names(stmts_names(ns, b.ss@), b.e)
}

/// The variable names in scope after the statements `ss` are visited.
pub open spec fn stmts_names(ns: Seq<Name>, ss: Seq<Stmt>) -> Seq<Name>
    decreases ss,
{
    if ss.len() == 0 {
        ns
    } else {
        stmt_names(stmts_names(ns, ss.drop_last()), ss.last())
    }
}

/// The variable names in scope after the statement `s` is visited.
pub open spec fn stmt_names(ns: Seq<Name>, s: Stmt) -> Seq<Name>
    decreases s,
{
    match s.kind {
        StmtKind::SVar(p, e) => pattern_names(expr_names(ns, e), p),
        _ => ns,
    }
}

/// The variables in scope after the visited pattern `q` is bound: a
/// variable pattern binds its name to its type.
pub open spec fn pattern_env(vs: Seq<(Name, Type)>, q: Pattern) -> Seq<(Name, Type)> {
    match *q.kind {
        PatternKind::PVar(x) => vs.push((x, q.t)),
        _ => vs,
    }
}

/// The variables in scope after the visited patterns of `qs` are bound in
/// order.
pub open spec fn pairs_env(vs: Seq<(Name, Type)>, qs: Seq<(Pattern, Expr)>) -> Seq<(Name, Type)>
    decreases qs.len(),
{
    if qs.len() == 0 {
        vs
    } else {
        pattern_env(pairs_env(vs, qs.drop_last()), qs.last().0)
    }
}

/// The variables in scope after the visit that gave the expression `r`.
pub open spec fn expr_env(vs: Seq<(Name, Type)>, r: Expr) -> Seq<(Name, Type)>
    decreases r,
{
    match *r.kind {
        ExprKind::EIfElse(_, c0, c1) => block_env(block_env(vs, c0), c1),
        ExprKind::ESsaLoop(qs, c) => block_env(pairs_env(vs, qs@), c),
        ExprKind::ESsaContinue(qs) => pairs_env(vs, qs@),
        _ => vs,
    }
}

/// The variables in scope after the visit that gave the block `r`.
pub open spec fn block_env(vs: Seq<(Name, Type)>, r: Block) -> Seq<(Name, Type)>
    decreases r,
{
    expr_env(stmts_env(vs, r.ss@), r.e)
}

/// The variables in scope after the visit that gave the statements `rs`.
pub open spec fn stmts_env(vs: Seq<(Name, Type)>, rs: Seq<Stmt>) -> Seq<(Name, Type)>
    decreases rs,
{
    if rs.len() == 0 {
        vs
    } else {
        stmt_env(stmts_env(vs, rs.drop_last()), rs.last())
    }
}

/// The variables in scope after the visit that gave the statement `r`.
pub open spec fn stmt_env(vs: Seq<(Name, Type)>, r: Stmt) -> Seq<(Name, Type)>
    decreases r,
{
    match r.kind {
        StmtKind::SVar(q, f) => pattern_env(expr_env(vs, f), q),
        _ => vs,
    }
}

/// `e` reads a variable whose name is in scope.
pub open spec fn val_ok(ns: Seq<Name>, e: Expr) -> bool {
    match *e.kind {
        ExprKind::EVar(x) => has_name(ns, x),
        _ => false,
    }
}

/// Each expression of `es` reads a variable in scope.
pub open spec fn vals_ok(ns: Seq<Name>, es: Seq<Expr>) -> bool {
    forall|i: int| 0 <= i < es.len() ==> #[trigger] val_ok(ns, es[i])
}

/// Each field of `es` reads a variable in scope.
pub open spec fn named_vals_ok(ns: Seq<Name>, es: Seq<(Name, Expr)>) -> bool {
    forall|i: int| 0 <= i < es.len() ==> #[trigger] val_ok(ns, es[i].1)
}

/// `p` binds a variable or ignores the value, and its type parameters are
/// bound.
pub open spec fn pattern_ok(gs: Seq<(Name, Type)>, p: Pattern) -> bool {
    &&& resolvable(gs, p.t)
    &&& (*p.kind is PIgnore || *p.kind is PVar)
}

/// Each pattern of `pes` can be bound, and each expression then reads a
/// variable in scope.
pub open spec fn pairs_ok(gs: Seq<(Name, Type)>, ns: Seq<Name>, pes: Seq<(Pattern, Expr)>) -> bool
    decreases pes.len(),
{
    if pes.len() == 0 {
        true
    } else {
        &&& pairs_ok(gs, ns, pes.drop_last())
        &&& pattern_ok(gs, pes.last().0)
        &&& val_ok(pattern_names(pairs_names(ns, pes.drop_last()), pes.last().0), pes.last().1)
    }
}

/// The expression `e` is one the pass handles: its type parameters are
/// bound, the expressions it reads are variables in scope, and its blocks
/// hold only variable statements, in the forms left after the conversion
/// to single assignments.
pub open spec fn expr_ok(gs: Seq<(Name, Type)>, ns: Seq<Name>, e: Expr) -> bool
    decreases e,
{
    &&& resolvable(gs, e.t)
    &&& match *e.kind {
        ExprKind::EConst(_) => true,
        ExprKind::EFunCallDirect(_, ts, es) => all_resolvable(gs, ts@) && vals_ok(ns, es@),
        ExprKind::EDef(_, ts) => all_resolvable(gs, ts@),
        ExprKind::EFunCall(a, es) => val_ok(ns, a) && vals_ok(ns, es@),
        ExprKind::EFunReturn(a) => val_ok(ns, a),
        ExprKind::EIfElse(a, b0, b1) => val_ok(ns, a) && block_ok(gs, ns, b0) && block_ok(
            gs,
            block_names(ns, b0),
            b1,
        ),
        ExprKind::ERecord(xes) => named_vals_ok(ns, xes@),
        ExprKind::ERecordConcat(a0, a1) => val_ok(ns, a0) && val_ok(ns, a1),
        ExprKind::ERecordAccess(a, _) => val_ok(ns, a),
        ExprKind::EVariant(_, ts, _, _) => all_resolvable(gs, ts@),
        ExprKind::EVariantAccess(_, ts, _, _) => all_resolvable(gs, ts@),
        ExprKind::EVariantCheck(_, ts, _, _) => all_resolvable(gs, ts@),
        ExprKind::EArray(es) => vals_ok(ns, es@),
        ExprKind::EArrayConcat(a0, a1) => val_ok(ns, a0) && val_ok(ns, a1),
        ExprKind::EArrayAccess(a0, a1) => val_ok(ns, a0) && val_ok(ns, a1),
        ExprKind::EMut(a0, a1) => val_ok(ns, a0) && val_ok(ns, a1),
        ExprKind::EVar(_) => true,
        ExprKind::ETuple(es) => vals_ok(ns, es@),
        ExprKind::ETupleAccess(a, _) => val_ok(ns, a),
        ExprKind::ENoop(a) => val_ok(ns, a),
        ExprKind::ESsaLoop(pes, b) => pairs_ok(gs, ns, pes@) && block_ok(gs, pairs_names(ns, pes@), b),
        ExprKind::EBreak(a) => val_ok(ns, a),
        ExprKind::ESsaContinue(pes) => pairs_ok(gs, ns, pes@),
        ExprKind::EError => true,
        _ => false,
    }
}

/// The block `b` is one the pass handles (see `expr_ok`).
pub open spec fn block_ok(gs: Seq<(Name, Type)>, ns: Seq<Name>, b: Block) -> bool
    decreases b,
{
    stmts_ok(gs, ns, b.ss@) && expr_ok(gs, stmts_names(ns, b.ss@), b.e)
}

/// The statements `ss` are ones the pass handles, in order.
pub open spec fn stmts_ok(gs: Seq<(Name, Type)>, ns: Seq<Name>, ss: Seq<Stmt>) -> bool
    decreases ss,
{
    if ss.len() == 0 {
        true
    } else {
        stmts_ok(gs, ns, ss.drop_last()) && stmt_ok(gs, stmts_names(ns, ss.drop_last()), ss.last())
    }
}

/// The statement `s` binds a pattern the pass handles to an expression it
/// handles.
pub open spec fn stmt_ok(gs: Seq<(Name, Type)>, ns: Seq<Name>, s: Stmt) -> bool
    decreases s,
{
    match s.kind {
        StmtKind::SVar(p, e) => expr_ok(gs, ns, e) && pattern_ok(gs, p),
        _ => false,
    }
}

/// `r` reads the variable that `e` reads, with the type of its innermost
/// binding in `vs`, at the same origin.
pub open spec fn val_resolved(vs: Seq<(Name, Type)>, e: Expr, r: Expr) -> bool {
    &&& r.info == e.info
    &&& match (*e.kind, *r.kind) {
        (ExprKind::EVar(x), ExprKind::EVar(y)) => x == y && bound(vs, x) == Some(r.t),
        _ => false,
    }
}

/// Each expression of `rs` is the variable read of `es` at its place,
/// typed by its binding.
pub open spec fn vals_resolved(vs: Seq<(Name, Type)>, es: Seq<Expr>, rs: Seq<Expr>) -> bool {
    &&& rs.len() == es.len()
    &&& forall|i: int| 0 <= i < es.len() ==> #[trigger] val_resolved(vs, es[i], rs[i])
}

/// Each field of `rs` has the name of the field of `es` at its place and
/// its variable read, typed by its binding.
pub open spec fn named_vals_resolved(vs: Seq<(Name, Type)>, es: Seq<(Name, Expr)>, rs: Seq<(Name, Expr)>) -> bool {
    &&& rs.len() == es.len()
    &&& forall|i: int| 0 <= i < es.len() ==> #[trigger] rs[i].0 == es[i].0
    &&& forall|i: int| 0 <= i < es.len() ==> #[trigger] val_resolved(vs, es[i].1, rs[i].1)
}

/// `q` is the pattern `p` with its type resolved.
pub open spec fn pattern_resolved(gs: Seq<(Name, Type)>, p: Pattern, q: Pattern) -> bool {
    &&& q.info == p.info
    &&& type_resolved(gs, p.t, q.t)
    &&& match (*p.kind, *q.kind) {
        (PatternKind::PIgnore, PatternKind::PIgnore) => true,
        (PatternKind::PVar(x), PatternKind::PVar(y)) => x == y,
        _ => false,
    }
}

/// Each pair of `qs` is the pair of `pes` at its place with the pattern
/// resolved and bound, then the expression read in the variables so bound.
pub open spec fn pairs_resolved(
    gs: Seq<(Name, Type)>,
    vs: Seq<(Name, Type)>,
    pes: Seq<(Pattern, Expr)>,
    qs: Seq<(Pattern, Expr)>,
) -> bool
    decreases pes.len(),
{
    if pes.len() == 0 {
        qs.len() == 0
    } else {
        &&& qs.len() == pes.len()
        &&& pairs_resolved(gs, vs, pes.drop_last(), qs.drop_last())
        &&& pattern_resolved(gs, pes.last().0, qs.last().0)
        &&& val_resolved(pattern_env(pairs_env(vs, qs.drop_last()), qs.last().0), pes.last().1, qs.last().1)
    }
}

/// `r` is the expression `e` visited with the type parameters `gs` and the
/// variables `vs` in scope: its type and the type arguments it holds are
/// resolved, each variable it reads takes the type of its binding, its
/// blocks are visited in turn with the variables bound so far, and the
/// expression of a variant is kept as it is. A no-op gives the variable it
/// reads.
pub open spec fn expr_resolved(gs: Seq<(Name, Type)>, vs: Seq<(Name, Type)>, e: Expr, r: Expr) -> bool
    decreases e,
{
    match *e.kind {
        ExprKind::ENoop(a) => val_resolved(vs, a, r),
        _ => {
            &&& r.info == e.info
            &&& type_resolved(gs, e.t, r.t)
            &&& match (*e.kind, *r.kind) {
                (ExprKind::EConst(c), ExprKind::EConst(d)) => c == d,
                (ExprKind::EFunCallDirect(x, ts, es), ExprKind::EFunCallDirect(y, us, fs)) => x == y && types_resolved(
                    gs,
                    ts@,
                    us@,
                ) && vals_resolved(vs, es@, fs@),
                (ExprKind::EDef(x, ts), ExprKind::EDef(y, us)) => x == y && types_resolved(gs, ts@, us@),
                (ExprKind::EFunCall(a, es), ExprKind::EFunCall(b, fs)) => val_resolved(vs, a, b) && vals_resolved(
                    vs,
                    es@,
                    fs@,
                ),
                (ExprKind::EFunReturn(a), ExprKind::EFunReturn(b)) => val_resolved(vs, a, b),
                (ExprKind::EIfElse(a, b0, b1), ExprKind::EIfElse(c, c0, c1)) => val_resolved(vs, a, c)
                    && block_resolved(gs, vs, b0, c0) && block_resolved(gs, block_env(vs, c0), b1, c1),
                (ExprKind::ERecord(xs), ExprKind::ERecord(ys)) => named_vals_resolved(vs, xs@, ys@),
                (ExprKind::ERecordConcat(a0, a1), ExprKind::ERecordConcat(b0, b1)) => val_resolved(vs, a0, b0)
                    && val_resolved(vs, a1, b1),
                (ExprKind::ERecordAccess(a, x), ExprKind::ERecordAccess(b, y)) => val_resolved(vs, a, b) && x == y,
                (ExprKind::EVariant(x0, ts, x1, a), ExprKind::EVariant(y0, us, y1, b)) => x0 == y0 && types_resolved(
                    gs,
                    ts@,
                    us@,
                ) && x1 == y1 && a == b,
                (ExprKind::EVariantAccess(x0, ts, x1, a), ExprKind::EVariantAccess(y0, us, y1, b)) => x0 == y0
                    && types_resolved(gs, ts@, us@) && x1 == y1 && a == b,
                (ExprKind::EVariantCheck(x0, ts, x1, a), ExprKind::EVariantCheck(y0, us, y1, b)) => x0 == y0
                    && types_resolved(gs, ts@, us@) && x1 == y1 && a == b,
                (ExprKind::EArray(es), ExprKind::EArray(fs)) => vals_resolved(vs, es@, fs@),
                (ExprKind::EArrayConcat(a0, a1), ExprKind::EArrayConcat(b0, b1)) => val_resolved(vs, a0, b0)
                    && val_resolved(vs, a1, b1),
                (ExprKind::EArrayAccess(a0, a1), ExprKind::EArrayAccess(b0, b1)) => val_resolved(vs, a0, b0)
                    && val_resolved(vs, a1, b1),
                (ExprKind::EMut(a0, a1), ExprKind::EMut(b0, b1)) => val_resolved(vs, a0, b0) && val_resolved(
                    vs,
                    a1,
                    b1,
                ),
                (ExprKind::EVar(x), ExprKind::EVar(y)) => x == y,
                (ExprKind::ETuple(es), ExprKind::ETuple(fs)) => vals_resolved(vs, es@, fs@),
                (ExprKind::ETupleAccess(a, n), ExprKind::ETupleAccess(b, m)) => val_resolved(vs, a, b) && n == m,
                (ExprKind::ESsaLoop(pes, b), ExprKind::ESsaLoop(qs, c)) => pairs_resolved(gs, vs, pes@, qs@)
                    && block_resolved(gs, pairs_env(vs, qs@), b, c),
                (ExprKind::EBreak(a), ExprKind::EBreak(b)) => val_resolved(vs, a, b),
                (ExprKind::ESsaContinue(pes), ExprKind::ESsaContinue(qs)) => pairs_resolved(gs, vs, pes@, qs@),
                (ExprKind::EError, ExprKind::EError) => true,
                _ => false,
            }
        },
    }
}

/// `r` is the block `b` visited: its statements in order, then its value,
/// each with the variables bound before it in scope.
pub open spec fn block_resolved(gs: Seq<(Name, Type)>, vs: Seq<(Name, Type)>, b: Block, r: Block) -> bool
    decreases b,
{
    &&& r.info == b.info
    &&& stmts_resolved(gs, vs, b.ss@, r.ss@)
    &&& expr_resolved(gs, stmts_env(vs, r.ss@), b.e, r.e)
}

/// Each statement of `rs` is the statement of `ss` at its place visited
/// with the variables bound before it in scope.
pub open spec fn stmts_resolved(gs: Seq<(Name, Type)>, vs: Seq<(Name, Type)>, ss: Seq<Stmt>, rs: Seq<Stmt>) -> bool
    decreases ss,
{
    if ss.len() == 0 {
        rs.len() == 0
    } else {
        &&& rs.len() == ss.len()
        &&& stmts_resolved(gs, vs, ss.drop_last(), rs.drop_last())
        &&& stmt_resolved(gs, stmts_env(vs, rs.drop_last()), ss.last(), rs.last())
    }
}

/// `r` is the variable statement `s` visited: its expression, then its
/// pattern.
pub open spec fn stmt_resolved(gs: Seq<(Name, Type)>, vs: Seq<(Name, Type)>, s: Stmt, r: Stmt) -> bool
    decreases s,
{
    &&& r.info == s.info
    &&& match (s.kind, r.kind) {
        (StmtKind::SVar(p, e), StmtKind::SVar(q, f)) => expr_resolved(gs, vs, e, f) && pattern_resolved(gs, p, q),
        _ => false,
    }
}

/// The nodes of an expression that the pass visits as expressions,
/// blocks and statements.
pub open spec fn visit_size(e: Expr) -> nat
    decreases e,
{
    1 + match *e.kind {
        ExprKind::EIfElse(_, b0, b1) => block_visit_size(b0) + block_visit_size(b1),
        ExprKind::ESsaLoop(_, b) => block_visit_size(b),
        _ => 0,
    }
}

/// The nodes of a block that the pass visits.
pub open spec fn block_visit_size(b: Block) -> nat
    decreases b,
{
    1 + stmts_visit_size(b.ss@) + visit_size(b.e)
}

/// The nodes of a list of statements that the pass visits.
pub open spec fn stmts_visit_size(ss: Seq<Stmt>) -> nat
    decreases ss,
{
    if ss.len() == 0 {
        0
    } else {
        stmts_visit_size(ss.drop_last()) + stmt_visit_size(ss.last())
    }
}

/// The nodes of a statement that the pass visits.
pub open spec fn stmt_visit_size(s: Stmt) -> nat
    decreases s,
{
    1 + match s.kind {
        StmtKind::SVar(_, e) => visit_size(e),
        _ => 0,
    }
}

/// Lemma: a statement of a list is no larger than the list.
proof fn lemma_stmts_visit_size_elem(ss: Seq<Stmt>, i: int)
    requires
        0 <= i < ss.len(),
    ensures
        stmt_visit_size(ss[i]) <= stmts_visit_size(ss),
    decreases ss.len(),
{
    if i < ss.len() - 1 {
        lemma_stmts_visit_size_elem(ss.drop_last(), i);
    }
}

/// Lemma: a name in scope has a binding.
proof fn lemma_named_bound(vs: Seq<(Name, Type)>, x: Name)
    requires
        has_name(names_of(vs), x),
    ensures
        bound(vs, x) is Some,
    decreases vs.len(),
{
    let ns = names_of(vs);
    let i = choose|i: int| 0 <= i < ns.len() && #[trigger] ns[i]@ == x@;
    if vs.last().0@ != x@ {
        assert(i < vs.len() - 1);
        assert(names_of(vs.drop_last())[i] == ns[i]);
        lemma_named_bound(vs.drop_last(), x);
    }
}

/// Lemma: binding a name adds it at the end of the names in scope.
proof fn lemma_names_push(vs: Seq<(Name, Type)>, b: (Name, Type))
    ensures
        names_of(vs.push(b)) == names_of(vs).push(b.0),
{
    assert(names_of(vs.push(b)) =~= names_of(vs).push(b.0));
}

/// Lemma: a prefix of pairs that can be visited can be visited.
proof fn lemma_pairs_ok_prefix(gs: Seq<(Name, Type)>, ns: Seq<Name>, pes: Seq<(Pattern, Expr)>, n: int)
    requires
        pairs_ok(gs, ns, pes),
        0 <= n <= pes.len(),
    ensures
        pairs_ok(gs, ns, pes.take(n)),
    decreases pes.len(),
{
    if n < pes.len() {
        lemma_pairs_ok_prefix(gs, ns, pes.drop_last(), n);
        assert(pes.drop_last().take(n) =~= pes.take(n));
    } else {
        assert(pes.take(n) =~= pes);
    }
}

/// Lemma: a prefix of statements that can be visited can be visited.
proof fn lemma_stmts_ok_prefix(gs: Seq<(Name, Type)>, ns: Seq<Name>, ss: Seq<Stmt>, n: int)
    requires
        stmts_ok(gs, ns, ss),
        0 <= n <= ss.len(),
    ensures
        stmts_ok(gs, ns, ss.take(n)),
    decreases ss.len(),
{
    if n < ss.len() {
        lemma_stmts_ok_prefix(gs, ns, ss.drop_last(), n);
        assert(ss.drop_last().take(n) =~= ss.take(n));
    } else {
        assert(ss.take(n) =~= ss);
    }
}

/// The variable `e` reads, typed by its innermost binding.
pub fn visit_val_expr(ctx: &Context, e: &Expr) -> (r: Expr)
    requires
        val_ok(names_of(ctx.vars()), *e),
        ctx.covered(),
    ensures
        val_resolved(ctx.vars(), *e, r),
        nominals_recorded(ctx.type_instances(), r.t),
{
    match &*e.kind {
        ExprKind::EVar(x) => {
            proof {
                lemma_named_bound(ctx.vars(), *x);
            }
            match ctx.find_var(x) {
                Some(t) => {
                    proof {
                        lemma_bound_is_binding(ctx.vars@, *x);
                        let i = choose|i: int| 0 <= i < ctx.vars@.len() && #[trigger] ctx.vars@[i].1 == t;
                        assert(nominals_recorded(ctx.types@, ctx.vars@[i].1));
                    }
                    ExprKind::EVar(copy_name(x)).with(t, e.info)
                },
                None => {
                    proof {
                        assert(false);
                    }
                    copy_expr(e)
                },
            }
        },
        _ => {
            proof {
                assert(false);
            }
            copy_expr(e)
        },
    }
}

/// Each variable read of `es` typed by its binding, in order.
fn visit_vals(ctx: &Context, es: &Vec<Expr>) -> (r: Vec<Expr>)
    requires
        vals_ok(names_of(ctx.vars()), es@),
        ctx.covered(),
    ensures
        vals_resolved(ctx.vars(), es@, r@),
{
    let mut r: Vec<Expr> = Vec::new();
    let mut i: usize = 0;
    while i < es.len()
        invariant
            i <= es@.len(),
            r@.len() == i,
            vals_ok(names_of(ctx.vars()), es@),
            ctx.covered(),
            forall|j: int| 0 <= j < i ==> #[trigger] val_resolved(ctx.vars(), es@[j], r@[j]),
        decreases es.len() - i,
    {
        assert(val_ok(names_of(ctx.vars()), es@[i as int]));
        let f = visit_val_expr(ctx, &es[i]);
        r.push(f);
        i = i + 1;
    }
    r
}

/// Each field of `es` with its variable read typed by its binding, in
/// order.
fn visit_named_vals(ctx: &Context, es: &Vec<(Name, Expr)>) -> (r: Vec<(Name, Expr)>)
    requires
        named_vals_ok(names_of(ctx.vars()), es@),
        ctx.covered(),
    ensures
        named_vals_resolved(ctx.vars(), es@, r@),
{
    let mut r: Vec<(Name, Expr)> = Vec::new();
    let mut i: usize = 0;
    while i < es.len()
        invariant
            i <= es@.len(),
            r@.len() == i,
            named_vals_ok(names_of(ctx.vars()), es@),
            ctx.covered(),
            forall|j: int| 0 <= j < i ==> #[trigger] r@[j].0 == es@[j].0,
            forall|j: int| 0 <= j < i ==> #[trigger] val_resolved(ctx.vars(), es@[j].1, r@[j].1),
        decreases es.len() - i,
    {
        assert(val_ok(names_of(ctx.vars()), es@[i as int].1));
        let f = visit_val_expr(ctx, &es[i].1);
        r.push((copy_name(&es[i].0), f));
        i = i + 1;
    }
    r
}

/// The pattern `p` with its type resolved; a variable pattern binds its
/// variable to that type.
pub fn visit_val_pattern(ctx: &mut Context, p: &Pattern) -> (r: Pattern)
    requires
        pattern_ok(old(ctx)@, *p),
        old(ctx).covered(),
    ensures
        final(ctx)@ == old(ctx)@,
        final(ctx).covered(),
        final(ctx).extends(*old(ctx)),
        extends_vars(old(ctx).vars(), final(ctx).vars()),
        pattern_resolved(old(ctx)@, *p, r),
        nominals_recorded(final(ctx).type_instances(), r.t),
        final(ctx).vars() == pattern_env(old(ctx).vars(), r),
        names_of(final(ctx).vars()) == pattern_names(names_of(old(ctx).vars()), *p),
{
    let info = p.info;
    let t = visit_type(ctx, &p.t, info);
    match &*p.kind {
        PatternKind::PIgnore => PatternKind::PIgnore.with(t, info),
        PatternKind::PVar(x) => {
            proof {
                lemma_names_push(ctx.vars(), (*x, t));
            }
            ctx.bind_var(copy_name(x), copy_type(&t));
            PatternKind::PVar(copy_name(x)).with(t, info)
        },
        _ => {
            proof {
                assert(false);
            }
            PatternKind::PIgnore.with(t, info)
        },
    }
}

/// Each pair of `pes` visited in order: the pattern bound, then the
/// variable read in the bindings so far.
fn visit_pairs(ctx: &mut Context, pes: &Vec<(Pattern, Expr)>) -> (r: Vec<(Pattern, Expr)>)
    requires
        pairs_ok(old(ctx)@, names_of(old(ctx).vars()), pes@),
        old(ctx).covered(),
    ensures
        final(ctx)@ == old(ctx)@,
        final(ctx).covered(),
        final(ctx).extends(*old(ctx)),
        extends_vars(old(ctx).vars(), final(ctx).vars()),
        pairs_resolved(old(ctx)@, old(ctx).vars(), pes@, r@),
        final(ctx).vars() == pairs_env(old(ctx).vars(), r@),
        names_of(final(ctx).vars()) == pairs_names(names_of(old(ctx).vars()), pes@),
{
    let ghost gs = ctx@;
    let ghost c0 = *ctx;
    let ghost vs0 = ctx.vars();
    let ghost ns0 = names_of(ctx.vars());
    let mut r: Vec<(Pattern, Expr)> = Vec::new();
    let mut i: usize = 0;
    while i < pes.len()
        invariant
            i <= pes@.len(),
            ctx@ == gs,
            ctx.covered(),
            ctx.extends(c0),
            extends_vars(vs0, ctx.vars()),
            pairs_ok(gs, ns0, pes@),
            pairs_resolved(gs, vs0, pes@.take(i as int), r@),
            ctx.vars() == pairs_env(vs0, r@),
            names_of(ctx.vars()) == pairs_names(ns0, pes@.take(i as int)),
        decreases pes.len() - i,
    {
        proof {
            lemma_pairs_ok_prefix(gs, ns0, pes@, i + 1);
            assert(pes@.take(i + 1).drop_last() =~= pes@.take(i as int));
            assert(pes@.take(i + 1).last() == pes@[i as int]);
        }
        let q = visit_val_pattern(ctx, &pes[i].0);
        let f = visit_val_expr(ctx, &pes[i].1);
        let ghost before = r@;
        r.push((q, f));
        proof {
            assert(r@.drop_last() =~= before);
        }
        i = i + 1;
    }
    proof {
        assert(pes@.take(pes@.len() as int) =~= pes@);
    }
    r
}

/// The expression `e` visited (see `expr_resolved`): its type and the type
/// arguments it holds resolved, each variable it reads typed by its
/// binding, and its blocks visited in turn.
#[verifier::rlimit(40)]
pub fn visit_expr(ctx: &mut Context, e: &Expr) -> (r: Expr)
    requires
        expr_ok(old(ctx)@, names_of(old(ctx).vars()), *e),
        old(ctx).covered(),
    ensures
        final(ctx)@ == old(ctx)@,
        final(ctx).covered(),
        final(ctx).extends(*old(ctx)),
        extends_vars(old(ctx).vars(), final(ctx).vars()),
        expr_resolved(old(ctx)@, old(ctx).vars(), *e, r),
        nominals_recorded(final(ctx).type_instances(), r.t),
        match *r.kind {
            ExprKind::EFunCallDirect(x, us, _) => recorded(final(ctx).func_instances(), x, us@)
                && nominals_recorded_list(final(ctx).type_instances(), us@),
            ExprKind::EDef(x, us) => recorded(final(ctx).func_instances(), x, us@)
                && nominals_recorded_list(final(ctx).type_instances(), us@),
            ExprKind::EVariant(x, us, _, _) => recorded(final(ctx).type_instances(), x, us@),
            ExprKind::EVariantAccess(x, us, _, _) => recorded(final(ctx).type_instances(), x, us@),
            ExprKind::EVariantCheck(x, us, _, _) => recorded(final(ctx).type_instances(), x, us@),
            _ => true,
        },
        final(ctx).vars() == expr_env(old(ctx).vars(), r),
        names_of(final(ctx).vars()) == expr_names(names_of(old(ctx).vars()), *e),
    decreases visit_size(*e), 0nat,
{
    let info = e.info;
    let t = visit_type(ctx, &e.t, info);
    let ghost after_t = ctx.types@;
    let r = match &*e.kind {
        ExprKind::EConst(c) => ExprKind::EConst(c.copy()).with(t, info),
        ExprKind::EFunCallDirect(x, ts, es) => {
            let us = visit_types(ctx, ts, info);
            let fs = visit_vals(ctx, es);
            ctx.record_func(x, &us);
            ExprKind::EFunCallDirect(copy_name(x), us, fs).with(t, info)
        },
        ExprKind::EDef(x, ts) => {
            let us = visit_types(ctx, ts, info);
            ctx.record_func(x, &us);
            ExprKind::EDef(copy_name(x), us).with(t, info)
        },
        ExprKind::EFunCall(a, es) => {
            let b = visit_val_expr(ctx, a);
            let fs = visit_vals(ctx, es);
            ExprKind::EFunCall(b, fs).with(t, info)
        },
        ExprKind::EFunReturn(a) => {
            let b = visit_val_expr(ctx, a);
            ExprKind::EFunReturn(b).with(t, info)
        },
        ExprKind::EIfElse(a, b0, b1) => {
            let c = visit_val_expr(ctx, a);
            let c0 = visit_block(ctx, b0);
            let c1 = visit_block(ctx, b1);
            ExprKind::EIfElse(c, c0, c1).with(t, info)
        },
        ExprKind::ERecord(xes) => {
            let yfs = visit_named_vals(ctx, xes);
            ExprKind::ERecord(yfs).with(t, info)
        },
        ExprKind::ERecordConcat(a0, a1) => {
            let b0 = visit_val_expr(ctx, a0);
            let b1 = visit_val_expr(ctx, a1);
            ExprKind::ERecordConcat(b0, b1).with(t, info)
        },
        ExprKind::ERecordAccess(a, x) => {
            let b = visit_val_expr(ctx, a);
            ExprKind::ERecordAccess(b, copy_name(x)).with(t, info)
        },
        ExprKind::EVariant(x0, ts, x1, a) => {
            let us = visit_types(ctx, ts, info);
            ctx.record_type(x0, &us);
            ExprKind::EVariant(copy_name(x0), us, copy_name(x1), copy_expr(a)).with(t, info)
        },
        ExprKind::EVariantAccess(x0, ts, x1, a) => {
            let us = visit_types(ctx, ts, info);
            ctx.record_type(x0, &us);
            ExprKind::EVariantAccess(copy_name(x0), us, copy_name(x1), copy_expr(a)).with(t, info)
        },
        ExprKind::EVariantCheck(x0, ts, x1, a) => {
            let us = visit_types(ctx, ts, info);
            ctx.record_type(x0, &us);
            ExprKind::EVariantCheck(copy_name(x0), us, copy_name(x1), copy_expr(a)).with(t, info)
        },
        ExprKind::EArray(es) => {
            let fs = visit_vals(ctx, es);
            ExprKind::EArray(fs).with(t, info)
        },
        ExprKind::EArrayConcat(a0, a1) => {
            let b0 = visit_val_expr(ctx, a0);
            let b1 = visit_val_expr(ctx, a1);
            ExprKind::EArrayConcat(b0, b1).with(t, info)
        },
        ExprKind::EArrayAccess(a0, a1) => {
            let b0 = visit_val_expr(ctx, a0);
            let b1 = visit_val_expr(ctx, a1);
            ExprKind::EArrayAccess(b0, b1).with(t, info)
        },
        ExprKind::EMut(a0, a1) => {
            let b0 = visit_val_expr(ctx, a0);
            let b1 = visit_val_expr(ctx, a1);
            ExprKind::EMut(b0, b1).with(t, info)
        },
        ExprKind::EVar(x) => ExprKind::EVar(copy_name(x)).with(t, info),
        ExprKind::ETuple(es) => {
            let fs = visit_vals(ctx, es);
            ExprKind::ETuple(fs).with(t, info)
        },
        ExprKind::ETupleAccess(a, n) => {
            let b = visit_val_expr(ctx, a);
            ExprKind::ETupleAccess(b, *n).with(t, info)
        },
        ExprKind::ENoop(a) => visit_val_expr(ctx, a),
        ExprKind::ESsaLoop(pes, b) => {
            let qs = visit_pairs(ctx, pes);
            let c = visit_block(ctx, b);
            ExprKind::ESsaLoop(qs, c).with(t, info)
        },
        ExprKind::EBreak(a) => {
            let b = visit_val_expr(ctx, a);
            ExprKind::EBreak(b).with(t, info)
        },
        ExprKind::ESsaContinue(pes) => {
            let qs = visit_pairs(ctx, pes);
            ExprKind::ESsaContinue(qs).with(t, info)
        },
        ExprKind::EError => ExprKind::EError.with(t, info),
        _ => {
            proof {
                assert(false);
            }
            copy_expr(e)
        },
    };
    proof {
        lemma_nominals_grow(after_t, ctx.types@, t);
    }
    r
}

/// The block `b` visited: its statements in order, then its value.
pub fn visit_block(ctx: &mut Context, b: &Block) -> (r: Block)
    requires
        block_ok(old(ctx)@, names_of(old(ctx).vars()), *b),
        old(ctx).covered(),
    ensures
        final(ctx)@ == old(ctx)@,
        final(ctx).covered(),
        final(ctx).extends(*old(ctx)),
        extends_vars(old(ctx).vars(), final(ctx).vars()),
        block_resolved(old(ctx)@, old(ctx).vars(), *b, r),
        final(ctx).vars() == block_env(old(ctx).vars(), r),
        names_of(final(ctx).vars()) == block_names(names_of(old(ctx).vars()), *b),
    decreases block_visit_size(*b), 0nat,
{
    let ss = visit_stmts(ctx, &b.ss);
    let e = visit_expr(ctx, &b.e);
    Block::new(ss, e, b.info)
}

/// Each statement of `ss` visited in order.
fn visit_stmts(ctx: &mut Context, ss: &Vec<Stmt>) -> (r: Vec<Stmt>)
    requires
        stmts_ok(old(ctx)@, names_of(old(ctx).vars()), ss@),
        old(ctx).covered(),
    ensures
        final(ctx)@ == old(ctx)@,
        final(ctx).covered(),
        final(ctx).extends(*old(ctx)),
        extends_vars(old(ctx).vars(), final(ctx).vars()),
        stmts_resolved(old(ctx)@, old(ctx).vars(), ss@, r@),
        final(ctx).vars() == stmts_env(old(ctx).vars(), r@),
        names_of(final(ctx).vars()) == stmts_names(names_of(old(ctx).vars()), ss@),
    decreases stmts_visit_size(ss@), 1nat,
{
    let ghost gs = ctx@;
    let ghost c0 = *ctx;
    let ghost vs0 = ctx.vars();
    let ghost ns0 = names_of(ctx.vars());
    let mut r: Vec<Stmt> = Vec::new();
    let mut i: usize = 0;
    while i < ss.len()
        invariant
            i <= ss@.len(),
            ctx@ == gs,
            ctx.covered(),
            ctx.extends(c0),
            extends_vars(vs0, ctx.vars()),
            stmts_ok(gs, ns0, ss@),
            stmts_resolved(gs, vs0, ss@.take(i as int), r@),
            ctx.vars() == stmts_env(vs0, r@),
            names_of(ctx.vars()) == stmts_names(ns0, ss@.take(i as int)),
        decreases ss.len() - i,
    {
        proof {
            lemma_stmts_ok_prefix(gs, ns0, ss@, i + 1);
            lemma_stmts_visit_size_elem(ss@, i as int);
            assert(ss@.take(i + 1).drop_last() =~= ss@.take(i as int));
            assert(ss@.take(i + 1).last() == ss@[i as int]);
        }
        let s = visit_expr_stmt(ctx, &ss[i]);
        let ghost before = r@;
        r.push(s);
        proof {
            assert(r@.drop_last() =~= before);
        }
        i = i + 1;
    }
    proof {
        assert(ss@.take(ss@.len() as int) =~= ss@);
    }
    r
}

/// The variable statement `s` visited: its expression, then its pattern.
pub fn visit_expr_stmt(ctx: &mut Context, s: &Stmt) -> (r: Stmt)
    requires
        stmt_ok(old(ctx)@, names_of(old(ctx).vars()), *s),
        old(ctx).covered(),
    ensures
        final(ctx)@ == old(ctx)@,
        final(ctx).covered(),
        final(ctx).extends(*old(ctx)),
        extends_vars(old(ctx).vars(), final(ctx).vars()),
        stmt_resolved(old(ctx)@, old(ctx).vars(), *s, r),
        final(ctx).vars() == stmt_env(old(ctx).vars(), r),
        names_of(final(ctx).vars()) == stmt_names(names_of(old(ctx).vars()), *s),
    decreases stmt_visit_size(*s), 0nat,
{
    match &s.kind {
        StmtKind::SVar(p, e) => {
            let f = visit_expr(ctx, e);
            let q = visit_val_pattern(ctx, p);
            StmtKind::SVar(q, f).with(s.info)
        },
        _ => {
            proof {
                assert(false);
            }
            StmtKind::SNoop.with(s.info)
        },
    }
}

/// A declared type: an enumeration with its origin, annotations, type
/// parameters and variants, or a built-in type with its origin,
/// annotations and type parameters.
pub enum TypeDecl {
    Enum(Info, Meta, Vec<Name>, Vec<(Name, Type)>),
    Bit(Info, Meta, Vec<Name>),
}

/// A declared function: a definition with its origin, annotations, type
/// parameters, parameters, result type and body, or a built-in function
/// with its origin, annotations, type parameters, parameter types and
/// result type.
pub enum FuncDecl {
    Def(Info, Meta, Vec<Name>, Vec<Pattern>, Type, Block),
    Bif(Info, Meta, Vec<Name>, Vec<Type>, Type),
}

/// The declarations in scope, the latest of each name last.
pub struct Declarations {
    types: Vec<(Name, TypeDecl)>,
    funcs: Vec<(Name, FuncDecl)>,
}

impl Declarations {
    /// The type declarations, in the order made.
    pub closed spec fn types(&self) -> Seq<(Name, TypeDecl)> {
        self.types@
    }

    /// The function declarations, in the order made.
    pub closed spec fn funcs(&self) -> Seq<(Name, FuncDecl)> {
        self.funcs@
    }

    /// No declarations.
    pub fn new() -> (d: Declarations)
        ensures
            d.types() == Seq::<(Name, TypeDecl)>::empty(),
            d.funcs() == Seq::<(Name, FuncDecl)>::empty(),
    {
        Declarations { types: Vec::new(), funcs: Vec::new() }
    }

    /// Declares the type `x`.
    pub fn declare_type(&mut self, x: Name, d: TypeDecl)
        ensures
            final(self).types() == old(self).types().push((x, d)),
            final(self).funcs() == old(self).funcs(),
    {
        self.types.push((x, d));
    }

    /// Declares the function `x`.
    pub fn declare_func(&mut self, x: Name, d: FuncDecl)
        ensures
            final(self).funcs() == old(self).funcs().push((x, d)),
            final(self).types() == old(self).types(),
    {
        self.funcs.push((x, d));
    }
}

/// The place of the latest declaration named `x` in `ds`, if any.
pub open spec fn latest<D>(ds: Seq<(Name, D)>, x: Name) -> Option<int>
    decreases ds.len(),
{
    if ds.len() == 0 {
        None
    } else if ds.last().0@ == x@ {
        Some(ds.len() - 1)
    } else {
        latest(ds.drop_last(), x)
    }
}

/// Lemma: the latest declaration of a name is one of the declarations,
/// with that name.
proof fn lemma_latest<D>(ds: Seq<(Name, D)>, x: Name)
    ensures
        latest(ds, x) matches Some(j) ==> 0 <= j < ds.len() && ds[j].0@ == x@,
    decreases ds.len(),
{
    if ds.len() > 0 && ds.last().0@ != x@ {
        lemma_latest(ds.drop_last(), x);
    }
}

/// The place of the latest declaration named `x`, looked for from the end.
fn find_latest<D>(ds: &Vec<(Name, D)>, x: &Name) -> (r: Option<usize>)
    ensures
        match r {
            Some(j) => latest(ds@, *x) == Some(j as int),
            None => latest(ds@, *x) is None,
        },
{
    let mut i: usize = ds.len();
    proof {
        assert(ds@.take(i as int) =~= ds@);
    }
    while i > 0
        invariant
            i <= ds@.len(),
            latest(ds@, *x) == latest(ds@.take(i as int), *x),
        decreases i,
    {
        proof {
            assert(ds@.take(i as int).drop_last() =~= ds@.take(i - 1));
            assert(ds@.take(i as int).last() == ds@[i - 1]);
        }
        if ds[i - 1].0 == *x {
            return Some(i - 1);
        }
        i = i - 1;
    }
    None
}

/// The bindings `gs` with each type parameter of `ps` bound, in order, to
/// the type argument of `us` at its place, as far as both go.
pub open spec fn params_bound(gs: Seq<(Name, Type)>, ps: Seq<Name>, us: Seq<Type>) -> Seq<(Name, Type)> {
    let n = if ps.len() <= us.len() {
        ps.len()
    } else {
        us.len()
    };
    gs + Seq::new(n, |i: int| (ps[i], us[i]))
}

/// Each entry of `rs` has the name of the entry of `xts` at its place and
/// its type resolved.
pub open spec fn named_types_resolved(gs: Seq<(Name, Type)>, xts: Seq<(Name, Type)>, rs: Seq<(Name, Type)>) -> bool {
    &&& rs.len() == xts.len()
    &&& forall|i: int| 0 <= i < xts.len() ==> #[trigger] rs[i].0 == xts[i].0
    &&& forall|i: int| 0 <= i < xts.len() ==> #[trigger] type_resolved(gs, xts[i].1, rs[i].1)
}

/// Every type parameter in the types of `xts` is bound in `gs`.
pub open spec fn named_resolvable(gs: Seq<(Name, Type)>, xts: Seq<(Name, Type)>) -> bool {
    forall|i: int| 0 <= i < xts.len() ==> #[trigger] resolvable(gs, xts[i].1)
}

/// `s` is the specialised declaration of the type `d`, named `x`, for the
/// type arguments `us`, with the bindings `gs` in scope: an enumeration's
/// variants have their types resolved with its type parameters bound to
/// `us`.
pub open spec fn type_made(gs: Seq<(Name, Type)>, d: TypeDecl, x: Name, us: Seq<Type>, s: Stmt) -> bool {
    match d {
        TypeDecl::Enum(info, m, ps, xts) => s.info == info && (s.kind matches StmtKind::SMonoEnum(m1, y, vs, yts)
            && m1@ == m@ && y@ == x@ && vs@ == us && named_types_resolved(params_bound(gs, ps@, us), xts@, yts@)),
        TypeDecl::Bit(info, m, _) => s.info == info && (s.kind matches StmtKind::SMonoBit(m1, y, vs) && m1@ == m@
            && y@ == x@ && vs@ == us),
    }
}

/// What making the next type or function instance came to.
pub enum Step {
    /// No instance was waiting.
    Idle,
    /// The next instance was made and its declaration emitted.
    Made,
    /// The next instance has no declaration, or its declaration holds a
    /// type parameter that is not bound; nothing was changed.
    Missing,
}

/// Whether every type parameter in `t` is bound in `ctx`.
pub fn check_resolvable(ctx: &Context, t: &Type) -> (r: bool)
    ensures
        r == resolvable(ctx@, *t),
    decreases *t,
{
    match &*t.kind {
        TypeKind::TFun(ts, a) => check_all_resolvable(ctx, ts) && check_resolvable(ctx, a),
        TypeKind::TTuple(ts, _) => check_all_resolvable(ctx, ts),
        TypeKind::TRecord(a) => check_resolvable(ctx, a),
        TypeKind::TNominal(_, ts) => check_all_resolvable(ctx, ts),
        TypeKind::TAlias(_, _, a) => check_resolvable(ctx, a),
        TypeKind::TRowExtend(xa, a) => check_resolvable(ctx, &xa.1) && check_resolvable(ctx, a),
        TypeKind::TRecordConcat(a0, a1) => check_resolvable(ctx, a0) && check_resolvable(ctx, a1),
        TypeKind::TGeneric(x) => ctx.find_generic(x).is_some(),
        TypeKind::TArray(a, _) => check_resolvable(ctx, a),
        TypeKind::TArrayConcat(a0, a1) => check_resolvable(ctx, a0) && check_resolvable(ctx, a1),
        _ => true,
    }
}

/// Whether every type parameter in the types of `ts` is bound in `ctx`.
pub fn check_all_resolvable(ctx: &Context, ts: &Vec<Type>) -> (r: bool)
    ensures
        r == all_resolvable(ctx@, ts@),
    decreases *ts,
{
    let mut i: usize = 0;
    while i < ts.len()
        invariant
            i <= ts@.len(),
            all_resolvable(ctx@, ts@.take(i as int)),
        decreases ts.len() - i,
    {
        proof {
            assert(decreases_to!(*ts => ts@[i as int]));
            assert(ts@.take(i + 1).drop_last() =~= ts@.take(i as int));
            assert(ts@.take(i + 1).last() == ts@[i as int]);
        }
        if !check_resolvable(ctx, &ts[i]) {
            proof {
                lemma_all_resolvable_prefix(ctx@, ts@, i + 1);
            }
            return false;
        }
        i = i + 1;
    }
    proof {
        assert(ts@.take(ts@.len() as int) =~= ts@);
    }
    true
}

/// Lemma: the prefixes of a list whose parameters are all bound have
/// their parameters bound.
proof fn lemma_all_resolvable_prefix(gs: Seq<(Name, Type)>, ts: Seq<Type>, n: int)
    requires
        0 <= n <= ts.len(),
    ensures
        all_resolvable(gs, ts) ==> all_resolvable(gs, ts.take(n)),
    decreases ts.len(),
{
    if n < ts.len() {
        lemma_all_resolvable_prefix(gs, ts.drop_last(), n);
        assert(ts.drop_last().take(n) =~= ts.take(n));
    } else {
        assert(ts.take(n) =~= ts);
    }
}

/// Whether every type parameter in the types of `xts` is bound in `ctx`.
fn check_named_resolvable(ctx: &Context, xts: &Vec<(Name, Type)>) -> (r: bool)
    ensures
        r == named_resolvable(ctx@, xts@),
{
    let mut i: usize = 0;
    while i < xts.len()
        invariant
            i <= xts@.len(),
            forall|j: int| 0 <= j < i ==> #[trigger] resolvable(ctx@, xts@[j].1),
        decreases xts.len() - i,
    {
        if !check_resolvable(ctx, &xts[i].1) {
            return false;
        }
        i = i + 1;
    }
    true
}

/// Lemma: a type of a list is in the list's nominal types.
proof fn lemma_nominal_in_list_elem(ts: Seq<Type>, i: int, x: Name, us: Seq<Type>)
    requires
        0 <= i < ts.len(),
        nominal_in(ts[i], x, us),
    ensures
        nominal_in_list(ts, x, us),
    decreases ts.len(),
{
    if i < ts.len() - 1 {
        lemma_nominal_in_list_elem(ts.drop_last(), i, x, us);
    }
}

/// Binds each type parameter of `ps`, in order, to the type argument of
/// `us` at its place, as far as both go.
fn bind_params(ctx: &mut Context, ps: &Vec<Name>, us: &Vec<Type>)
    requires
        old(ctx).covered(),
        nominals_recorded_list(old(ctx).type_instances(), us@),
    ensures
        final(ctx)@ == params_bound(old(ctx)@, ps@, us@),
        final(ctx).vars() == old(ctx).vars(),
        final(ctx).type_instances() == old(ctx).type_instances(),
        final(ctx).func_instances() == old(ctx).func_instances(),
        final(ctx).covered(),
        final(ctx).extends(*old(ctx)),
{
    let n: usize = if ps.len() <= us.len() {
        ps.len()
    } else {
        us.len()
    };
    let ghost base = ctx@;
    let mut i: usize = 0;
    while i < n
        invariant
            n <= ps@.len(),
            n <= us@.len(),
            i <= n,
            ctx@ == base + Seq::new(i as nat, |k: int| (ps@[k], us@[k])),
            ctx.vars() == old(ctx).vars(),
            ctx.type_instances() == old(ctx).type_instances(),
            ctx.func_instances() == old(ctx).func_instances(),
            ctx.covered(),
            ctx.extends(*old(ctx)),
            nominals_recorded_list(ctx.type_instances(), us@),
        decreases n - i,
    {
        proof {
            assert forall|x: Name, vs: Seq<Type>| #[trigger] nominal_in(us@[i as int], x, vs) implies recorded(
                ctx.type_instances(),
                x,
                vs,
            ) by {
                lemma_nominal_in_list_elem(us@, i as int, x, vs);
            }
        }
        ctx.bind_generic(copy_name(&ps[i]), copy_type(&us[i]));
        proof {
            assert(ctx@ =~= base + Seq::new((i + 1) as nat, |k: int| (ps@[k], us@[k])));
        }
        i = i + 1;
    }
}

/// Each entry of `xts` with its type visited, in order.
fn visit_named_types(ctx: &mut Context, xts: &Vec<(Name, Type)>, info: Info) -> (r: Vec<(Name, Type)>)
    requires
        named_resolvable(old(ctx)@, xts@),
        old(ctx).covered(),
    ensures
        final(ctx)@ == old(ctx)@,
        final(ctx).vars() == old(ctx).vars(),
        final(ctx).func_instances() == old(ctx).func_instances(),
        final(ctx).covered(),
        final(ctx).extends(*old(ctx)),
        named_types_resolved(old(ctx)@, xts@, r@),
{
    let mut r: Vec<(Name, Type)> = Vec::new();
    let mut i: usize = 0;
    while i < xts.len()
        invariant
            i <= xts@.len(),
            r@.len() == i,
            ctx@ == old(ctx)@,
            ctx.vars() == old(ctx).vars(),
            ctx.func_instances() == old(ctx).func_instances(),
            ctx.covered(),
            ctx.extends(*old(ctx)),
            named_resolvable(ctx@, xts@),
            forall|j: int| 0 <= j < i ==> #[trigger] r@[j].0 == xts@[j].0,
            forall|j: int| 0 <= j < i ==> #[trigger] type_resolved(ctx@, xts@[j].1, r@[j].1),
        decreases xts.len() - i,
    {
        assert(resolvable(ctx@, xts@[i as int].1));
        let u = visit_type(ctx, &xts[i].1, info);
        r.push((copy_name(&xts[i].0), u));
        i = i + 1;
    }
    r
}

/// Drops the bindings of type parameters made after the first `n`.
fn unbind_params(ctx: &mut Context, n: usize)
    requires
        old(ctx).covered(),
        n <= old(ctx)@.len(),
    ensures
        final(ctx)@ == old(ctx)@.take(n as int),
        final(ctx).vars() == old(ctx).vars(),
        final(ctx).type_instances() == old(ctx).type_instances(),
        final(ctx).func_instances() == old(ctx).func_instances(),
        final(ctx).covered(),
        final(ctx).extends(*old(ctx)),
{
    ctx.generics.truncate(n);
    proof {
        assert(ctx.generics@ =~= old(ctx).generics@.take(n as int));
        assert forall|i: int| 0 <= i < ctx.generics@.len() implies #[trigger] nominals_recorded(
            ctx.types@,
            ctx.generics@[i].1,
        ) by {
            assert(ctx.generics@[i] == old(ctx).generics@[i]);
        }
    }
}

/// Makes the next type instance waiting, if any: finds the latest
/// declaration of its name and emits the specialised declaration, an
/// enumeration's variant types visited with its type parameters bound to
/// the instance's type arguments (recording the instances they hold).
pub fn instantiate_type(ctx: &mut Context, decls: &Declarations) -> (r: Step)
    requires
        old(ctx).covered(),
    ensures
        final(ctx).covered(),
        final(ctx)@ == old(ctx)@,
        final(ctx).vars() == old(ctx).vars(),
        final(ctx).func_instances() == old(ctx).func_instances(),
        final(ctx).funcs_done() == old(ctx).funcs_done(),
        extends_insts(old(ctx).type_instances(), final(ctx).type_instances()),
        ({
            let k = old(ctx).types_done();
            let inst = old(ctx).type_instances()[k];
            let j = latest(decls.types(), inst.0);
            match r {
                Step::Idle => k == old(ctx).type_instances().len() && final(ctx).extends(*old(ctx))
                    && final(ctx).type_instances() == old(ctx).type_instances(),
                Step::Missing => {
                    &&& k < old(ctx).type_instances().len()
                    &&& (j matches Some(j) ==> decls.types()[j].1 matches TypeDecl::Enum(_, _, ps, xts)
                        && !named_resolvable(params_bound(old(ctx)@, ps@, inst.1@), xts@))
                    &&& final(ctx).extends(*old(ctx))
                    &&& final(ctx).type_instances() == old(ctx).type_instances()
                },
                Step::Made => {
                    &&& k < old(ctx).type_instances().len()
                    &&& j is Some
                    &&& (decls.types()[j.unwrap()].1 matches TypeDecl::Enum(_, _, ps, xts) ==> named_resolvable(
                        params_bound(old(ctx)@, ps@, inst.1@),
                        xts@,
                    ))
                    &&& final(ctx).types_done() == k + 1
                    &&& final(ctx).stmts().len() == old(ctx).stmts().len() + 1
                    &&& final(ctx).stmts().drop_last() == old(ctx).stmts()
                    &&& type_made(old(ctx)@, decls.types()[j.unwrap()].1, inst.0, inst.1@, final(ctx).stmts().last())
                },
            }
        }),
{
    if ctx.types_done >= ctx.types.len() {
        return Step::Idle;
    }
    let k = ctx.types_done;
    let x = copy_name(&ctx.types[k].0);
    let us = copy_types(&ctx.types[k].1);
    proof {
        assert(nominals_recorded_list(ctx.types@, ctx.types@[k as int].1@));
        lemma_latest(decls.types(), x);
    }
    match find_latest(&decls.types, &x) {
        None => Step::Missing,
        Some(j) => match &decls.types[j].1 {
            TypeDecl::Bit(info, m, _) => {
                ctx.stmts.push(StmtKind::SMonoBit(copy_meta(m), x, us).with(*info));
                ctx.types_done = k + 1;
                Step::Made
            },
            TypeDecl::Enum(info, m, ps, xts) => {
                let base = ctx.generics.len();
                bind_params(ctx, ps, &us);
                if !check_named_resolvable(ctx, xts) {
                    unbind_params(ctx, base);
                    proof {
                        assert(ctx.generics@ =~= old(ctx).generics@);
                    }
                    return Step::Missing;
                }
                let yts = visit_named_types(ctx, xts, *info);
                unbind_params(ctx, base);
                proof {
                    assert(ctx.generics@ =~= old(ctx).generics@);
                }
                ctx.stmts.push(StmtKind::SMonoEnum(copy_meta(m), x, us, yts).with(*info));
                ctx.types_done = k + 1;
                Step::Made
            },
        },
    }
}

/// The variable names in scope after the patterns `ps` are bound in order.
pub open spec fn params_names(ns: Seq<Name>, ps: Seq<Pattern>) -> Seq<Name>
    decreases ps.len(),
{
    if ps.len() == 0 {
        ns
    } else {
        pattern_names(params_names(ns, ps.drop_last()), ps.last())
    }
}

/// The variables in scope after the visited patterns `qs` are bound in
/// order.
pub open spec fn params_env(vs: Seq<(Name, Type)>, qs: Seq<Pattern>) -> Seq<(Name, Type)>
    decreases qs.len(),
{
    if qs.len() == 0 {
        vs
    } else {
        pattern_env(params_env(vs, qs.drop_last()), qs.last())
    }
}

/// Each pattern of `ps` is one the pass handles.
pub open spec fn params_ok(gs: Seq<(Name, Type)>, ps: Seq<Pattern>) -> bool {
    forall|i: int| 0 <= i < ps.len() ==> #[trigger] pattern_ok(gs, ps[i])
}

/// Each pattern of `qs` is the pattern of `ps` at its place resolved.
pub open spec fn params_resolved(gs: Seq<(Name, Type)>, ps: Seq<Pattern>, qs: Seq<Pattern>) -> bool {
    &&& qs.len() == ps.len()
    &&& forall|i: int| 0 <= i < ps.len() ==> #[trigger] pattern_resolved(gs, ps[i], qs[i])
}

/// The function `d` can be made for the type arguments `us` with the
/// bindings `gs` and the variable names `ns` in scope: with its type
/// parameters bound to `us`, its parameters, result type and body (or
/// parameter types) are ones the pass handles.
pub open spec fn func_ok(gs: Seq<(Name, Type)>, ns: Seq<Name>, d: FuncDecl, us: Seq<Type>) -> bool {
    match d {
        FuncDecl::Def(_, _, ps, pats, t, b) => {
            let hs = params_bound(gs, ps@, us);
            &&& params_ok(hs, pats@)
            &&& resolvable(hs, t)
            &&& block_ok(hs, params_names(ns, pats@), b)
        },
        FuncDecl::Bif(_, _, ps, ts, t) => {
            let hs = params_bound(gs, ps@, us);
            all_resolvable(hs, ts@) && resolvable(hs, t)
        },
    }
}

/// `s` is the specialised declaration of the function `d`, named `x`, for
/// the type arguments `us`, with the bindings `gs` and the variables `vs`
/// in scope: with its type parameters bound to `us`, a definition has its
/// parameters, result type and body visited, the body with the parameters
/// bound; a built-in function has its parameter and result types resolved,
/// and is emitted with no type arguments.
pub open spec fn func_made(gs: Seq<(Name, Type)>, vs: Seq<(Name, Type)>, d: FuncDecl, x: Name, us: Seq<Type>, s: Stmt) -> bool {
    match d {
        FuncDecl::Def(info, m, ps, pats, t, b) => {
            let hs = params_bound(gs, ps@, us);
            &&& s.info == info
            &&& s.kind matches StmtKind::SMonoDef(m1, y, vs1, qs, u, c)
            &&& m1@ == m@
            &&& y@ == x@
            &&& vs1@ == us
            &&& params_resolved(hs, pats@, qs@)
            &&& type_resolved(hs, t, u)
            &&& block_resolved(hs, params_env(vs, qs@), b, c)
        },
        FuncDecl::Bif(info, m, ps, ts, t) => {
            let hs = params_bound(gs, ps@, us);
            &&& s.info == info
            &&& s.kind matches StmtKind::SMonoBif(m1, y, vs1, us1, u)
            &&& m1@ == m@
            &&& y@ == x@
            &&& vs1@.len() == 0
            &&& types_resolved(hs, ts@, us1@)
            &&& type_resolved(hs, t, u)
        },
    }
}

/// Whether `e` reads a variable named in `ns`.
fn check_val(ns: &Vec<Name>, e: &Expr) -> (r: bool)
    ensures
        r == val_ok(ns@, *e),
{
    match &*e.kind {
        ExprKind::EVar(x) => contains_name(ns, x),
        _ => false,
    }
}

/// Whether each expression of `es` reads a variable named in `ns`.
fn check_vals(ns: &Vec<Name>, es: &Vec<Expr>) -> (r: bool)
    ensures
        r == vals_ok(ns@, es@),
{
    let mut i: usize = 0;
    while i < es.len()
        invariant
            i <= es@.len(),
            forall|j: int| 0 <= j < i ==> #[trigger] val_ok(ns@, es@[j]),
        decreases es.len() - i,
    {
        if !check_val(ns, &es[i]) {
            return false;
        }
        i = i + 1;
    }
    true
}

/// Whether each field of `es` reads a variable named in `ns`.
fn check_named_vals(ns: &Vec<Name>, es: &Vec<(Name, Expr)>) -> (r: bool)
    ensures
        r == named_vals_ok(ns@, es@),
{
    let mut i: usize = 0;
    while i < es.len()
        invariant
            i <= es@.len(),
            forall|j: int| 0 <= j < i ==> #[trigger] val_ok(ns@, es@[j].1),
        decreases es.len() - i,
    {
        if !check_val(ns, &es[i].1) {
            return false;
        }
        i = i + 1;
    }
    true
}

/// Whether `p` is a pattern the pass handles.
fn check_pattern(ctx: &Context, p: &Pattern) -> (r: bool)
    ensures
        r == pattern_ok(ctx@, *p),
{
    let shape = match &*p.kind {
        PatternKind::PIgnore => true,
        PatternKind::PVar(_) => true,
        _ => false,
    };
    shape && check_resolvable(ctx, &p.t)
}

/// Adds the name a pattern binds, if any.
fn bind_pattern_name(ns: &mut Vec<Name>, p: &Pattern)
    ensures
        final(ns)@ == pattern_names(old(ns)@, *p),
{
    match &*p.kind {
        PatternKind::PVar(x) => ns.push(copy_name(x)),
        _ => {},
    }
}

/// Whether the pairs `pes` are ones the pass handles; where they are, the
/// names they bind are added to `ns`.
fn check_pairs(ctx: &Context, ns: &mut Vec<Name>, pes: &Vec<(Pattern, Expr)>) -> (r: bool)
    ensures
        r == pairs_ok(ctx@, old(ns)@, pes@),
        r ==> final(ns)@ == pairs_names(old(ns)@, pes@),
{
    let ghost ns0 = ns@;
    let mut i: usize = 0;
    while i < pes.len()
        invariant
            i <= pes@.len(),
            ns0 == old(ns)@,
            pairs_ok(ctx@, ns0, pes@.take(i as int)),
            ns@ == pairs_names(ns0, pes@.take(i as int)),
        decreases pes.len() - i,
    {
        proof {
            assert(pes@.take(i + 1).drop_last() =~= pes@.take(i as int));
            assert(pes@.take(i + 1).last() == pes@[i as int]);
        }
        if !check_pattern(ctx, &pes[i].0) {
            proof {
                assert(!pairs_ok(ctx@, ns0, pes@.take(i + 1)));
                if pairs_ok(ctx@, ns0, pes@) {
                    lemma_pairs_ok_prefix(ctx@, ns0, pes@, i + 1);
                }
            }
            return false;
        }
        bind_pattern_name(ns, &pes[i].0);
        proof {
            assert(pairs_names(ns0, pes@.take(i + 1)) == pattern_names(pairs_names(ns0, pes@.take(i as int)), pes@[i as int].0));
        }
        if !check_val(ns, &pes[i].1) {
            proof {
                assert(!pairs_ok(ctx@, ns0, pes@.take(i + 1)));
                if pairs_ok(ctx@, ns0, pes@) {
                    lemma_pairs_ok_prefix(ctx@, ns0, pes@, i + 1);
                }
            }
            return false;
        }
        i = i + 1;
    }
    proof {
        assert(pes@.take(pes@.len() as int) =~= pes@);
    }
    true
}

/// Whether `e` is an expression the pass handles (see `expr_ok`); where
/// it is, the names its visit binds are added to `ns`.
fn check_expr(ctx: &Context, ns: &mut Vec<Name>, e: &Expr) -> (r: bool)
    ensures
        r == expr_ok(ctx@, old(ns)@, *e),
        r ==> final(ns)@ == expr_names(old(ns)@, *e),
    decreases visit_size(*e), 0nat,
{
    if !check_resolvable(ctx, &e.t) {
        return false;
    }
    match &*e.kind {
        ExprKind::EConst(_) => true,
        ExprKind::EFunCallDirect(_, ts, es) => check_all_resolvable(ctx, ts) && check_vals(ns, es),
        ExprKind::EDef(_, ts) => check_all_resolvable(ctx, ts),
        ExprKind::EFunCall(a, es) => check_val(ns, a) && check_vals(ns, es),
        ExprKind::EFunReturn(a) => check_val(ns, a),
        ExprKind::EIfElse(a, b0, b1) => {
            if !check_val(ns, a) {
                return false;
            }
            if !check_block(ctx, ns, b0) {
                return false;
            }
            check_block(ctx, ns, b1)
        },
        ExprKind::ERecord(xes) => check_named_vals(ns, xes),
        ExprKind::ERecordConcat(a0, a1) => check_val(ns, a0) && check_val(ns, a1),
        ExprKind::ERecordAccess(a, _) => check_val(ns, a),
        ExprKind::EVariant(_, ts, _, _) => check_all_resolvable(ctx, ts),
        ExprKind::EVariantAccess(_, ts, _, _) => check_all_resolvable(ctx, ts),
        ExprKind::EVariantCheck(_, ts, _, _) => check_all_resolvable(ctx, ts),
        ExprKind::EArray(es) => check_vals(ns, es),
        ExprKind::EArrayConcat(a0, a1) => check_val(ns, a0) && check_val(ns, a1),
        ExprKind::EArrayAccess(a0, a1) => check_val(ns, a0) && check_val(ns, a1),
        ExprKind::EMut(a0, a1) => check_val(ns, a0) && check_val(ns, a1),
        ExprKind::EVar(_) => true,
        ExprKind::ETuple(es) => check_vals(ns, es),
        ExprKind::ETupleAccess(a, _) => check_val(ns, a),
        ExprKind::ENoop(a) => check_val(ns, a),
        ExprKind::ESsaLoop(pes, b) => {
            if !check_pairs(ctx, ns, pes) {
                return false;
            }
            check_block(ctx, ns, b)
        },
        ExprKind::EBreak(a) => check_val(ns, a),
        ExprKind::ESsaContinue(pes) => check_pairs(ctx, ns, pes),
        ExprKind::EError => true,
        _ => false,
    }
}

/// Whether `b` is a block the pass handles; where it is, the names its
/// visit binds are added to `ns`.
fn check_block(ctx: &Context, ns: &mut Vec<Name>, b: &Block) -> (r: bool)
    ensures
        r == block_ok(ctx@, old(ns)@, *b),
        r ==> final(ns)@ == block_names(old(ns)@, *b),
    decreases block_visit_size(*b), 0nat,
{
    if !check_stmts(ctx, ns, &b.ss) {
        return false;
    }
    check_expr(ctx, ns, &b.e)
}

/// Whether the statements `ss` are ones the pass handles; where they are,
/// the names their visit binds are added to `ns`.
fn check_stmts(ctx: &Context, ns: &mut Vec<Name>, ss: &Vec<Stmt>) -> (r: bool)
    ensures
        r == stmts_ok(ctx@, old(ns)@, ss@),
        r ==> final(ns)@ == stmts_names(old(ns)@, ss@),
    decreases stmts_visit_size(ss@), 1nat,
{
    let ghost ns0 = ns@;
    let mut i: usize = 0;
    while i < ss.len()
        invariant
            i <= ss@.len(),
            ns0 == old(ns)@,
            stmts_ok(ctx@, ns0, ss@.take(i as int)),
            ns@ == stmts_names(ns0, ss@.take(i as int)),
        decreases ss.len() - i,
    {
        proof {
            lemma_stmts_visit_size_elem(ss@, i as int);
            assert(ss@.take(i + 1).drop_last() =~= ss@.take(i as int));
            assert(ss@.take(i + 1).last() == ss@[i as int]);
        }
        if !check_stmt(ctx, ns, &ss[i]) {
            proof {
                assert(!stmts_ok(ctx@, ns0, ss@.take(i + 1)));
                if stmts_ok(ctx@, ns0, ss@) {
                    lemma_stmts_ok_prefix(ctx@, ns0, ss@, i + 1);
                }
            }
            return false;
        }
        i = i + 1;
    }
    proof {
        assert(ss@.take(ss@.len() as int) =~= ss@);
    }
    true
}

/// Whether `s` is a variable statement the pass handles; where it is, the
/// names its visit binds are added to `ns`.
fn check_stmt(ctx: &Context, ns: &mut Vec<Name>, s: &Stmt) -> (r: bool)
    ensures
        r == stmt_ok(ctx@, old(ns)@, *s),
        r ==> final(ns)@ == stmt_names(old(ns)@, *s),
    decreases stmt_visit_size(*s), 0nat,
{
    match &s.kind {
        StmtKind::SVar(p, e) => {
            if !check_expr(ctx, ns, e) {
                return false;
            }
            if !check_pattern(ctx, p) {
                return false;
            }
            bind_pattern_name(ns, p);
            true
        },
        _ => false,
    }
}

/// Whether each pattern of `ps` is one the pass handles.
fn check_params(ctx: &Context, ps: &Vec<Pattern>) -> (r: bool)
    ensures
        r == params_ok(ctx@, ps@),
{
    let mut i: usize = 0;
    while i < ps.len()
        invariant
            i <= ps@.len(),
            forall|j: int| 0 <= j < i ==> #[trigger] pattern_ok(ctx@, ps@[j]),
        decreases ps.len() - i,
    {
        if !check_pattern(ctx, &ps[i]) {
            return false;
        }
        i = i + 1;
    }
    true
}

/// The names of the variables in scope, in order.
fn var_names(ctx: &Context) -> (r: Vec<Name>)
    ensures
        r@ == names_of(ctx.vars()),
{
    let mut r: Vec<Name> = Vec::new();
    let mut i: usize = 0;
    while i < ctx.vars.len()
        invariant
            i <= ctx.vars@.len(),
            r@ == names_of(ctx.vars@.take(i as int)),
        decreases ctx.vars.len() - i,
    {
        r.push(copy_name(&ctx.vars[i].0));
        proof {
            assert(names_of(ctx.vars@.take(i + 1)) =~= names_of(ctx.vars@.take(i as int)).push(ctx.vars@[i as int].0));
        }
        i = i + 1;
    }
    proof {
        assert(ctx.vars@.take(ctx.vars@.len() as int) =~= ctx.vars@);
    }
    r
}

/// Adds to `ns` the names the patterns `ps` bind, in order.
fn bind_params_names(ns: &mut Vec<Name>, ps: &Vec<Pattern>)
    ensures
        final(ns)@ == params_names(old(ns)@, ps@),
{
    let ghost ns0 = ns@;
    let mut i: usize = 0;
    while i < ps.len()
        invariant
            i <= ps@.len(),
            ns@ == params_names(ns0, ps@.take(i as int)),
        decreases ps.len() - i,
    {
        proof {
            assert(ps@.take(i + 1).drop_last() =~= ps@.take(i as int));
            assert(ps@.take(i + 1).last() == ps@[i as int]);
        }
        bind_pattern_name(ns, &ps[i]);
        i = i + 1;
    }
    proof {
        assert(ps@.take(ps@.len() as int) =~= ps@);
    }
}

/// Each parameter pattern visited and bound, in order.
fn visit_params(ctx: &mut Context, ps: &Vec<Pattern>) -> (r: Vec<Pattern>)
    requires
        params_ok(old(ctx)@, ps@),
        old(ctx).covered(),
    ensures
        final(ctx)@ == old(ctx)@,
        final(ctx).covered(),
        final(ctx).extends(*old(ctx)),
        extends_vars(old(ctx).vars(), final(ctx).vars()),
        params_resolved(old(ctx)@, ps@, r@),
        final(ctx).vars() == params_env(old(ctx).vars(), r@),
        names_of(final(ctx).vars()) == params_names(names_of(old(ctx).vars()), ps@),
{
    let ghost vs0 = ctx.vars();
    let ghost ns0 = names_of(ctx.vars());
    let mut r: Vec<Pattern> = Vec::new();
    let mut i: usize = 0;
    while i < ps.len()
        invariant
            i <= ps@.len(),
            r@.len() == i,
            ctx@ == old(ctx)@,
            ctx.covered(),
            ctx.extends(*old(ctx)),
            extends_vars(vs0, ctx.vars()),
            params_ok(ctx@, ps@),
            forall|j: int| 0 <= j < i ==> #[trigger] pattern_resolved(ctx@, ps@[j], r@[j]),
            ctx.vars() == params_env(vs0, r@),
            names_of(ctx.vars()) == params_names(ns0, ps@.take(i as int)),
        decreases ps.len() - i,
    {
        assert(pattern_ok(ctx@, ps@[i as int]));
        let q = visit_val_pattern(ctx, &ps[i]);
        let ghost before = r@;
        r.push(q);
        proof {
            assert(r@.drop_last() =~= before);
            assert(ps@.take(i + 1).drop_last() =~= ps@.take(i as int));
            assert(ps@.take(i + 1).last() == ps@[i as int]);
        }
        i = i + 1;
    }
    proof {
        assert(ps@.take(ps@.len() as int) =~= ps@);
    }
    r
}

/// Drops the bindings of variables made after the first `n`.
fn unbind_vars(ctx: &mut Context, n: usize)
    requires
        old(ctx).covered(),
        n <= old(ctx).vars().len(),
    ensures
        final(ctx)@ == old(ctx)@,
        final(ctx).vars() == old(ctx).vars().take(n as int),
        final(ctx).type_instances() == old(ctx).type_instances(),
        final(ctx).func_instances() == old(ctx).func_instances(),
        final(ctx).covered(),
        final(ctx).extends(*old(ctx)),
{
    ctx.vars.truncate(n);
    proof {
        assert(ctx.vars@ =~= old(ctx).vars@.take(n as int));
        assert forall|i: int| 0 <= i < ctx.vars@.len() implies #[trigger] nominals_recorded(
            ctx.types@,
            ctx.vars@[i].1,
        ) by {
            assert(ctx.vars@[i] == old(ctx).vars@[i]);
        }
    }
}

/// Makes the next function instance waiting, if any: finds the latest
/// declaration of its name and emits the specialised declaration, visited
/// with the function's type parameters bound to the instance's type
/// arguments (recording the instances it holds); the bindings made for it
/// are dropped afterwards.
#[verifier::rlimit(40)]
pub fn instantiate_func(ctx: &mut Context, decls: &Declarations) -> (r: Step)
    requires
        old(ctx).covered(),
    ensures
        final(ctx).covered(),
        final(ctx)@ == old(ctx)@,
        final(ctx).vars() == old(ctx).vars(),
        final(ctx).types_done() == old(ctx).types_done(),
        extends_insts(old(ctx).type_instances(), final(ctx).type_instances()),
        extends_insts(old(ctx).func_instances(), final(ctx).func_instances()),
        ({
            let k = old(ctx).funcs_done();
            let inst = old(ctx).func_instances()[k];
            let j = latest(decls.funcs(), inst.0);
            match r {
                Step::Idle => k == old(ctx).func_instances().len() && final(ctx).extends(*old(ctx))
                    && final(ctx).type_instances() == old(ctx).type_instances()
                    && final(ctx).func_instances() == old(ctx).func_instances(),
                Step::Missing => {
                    &&& k < old(ctx).func_instances().len()
                    &&& (j matches Some(j) ==> !func_ok(
                        old(ctx)@,
                        names_of(old(ctx).vars()),
                        decls.funcs()[j].1,
                        inst.1@,
                    ))
                    &&& final(ctx).extends(*old(ctx))
                    &&& final(ctx).type_instances() == old(ctx).type_instances()
                    &&& final(ctx).func_instances() == old(ctx).func_instances()
                },
                Step::Made => {
                    &&& k < old(ctx).func_instances().len()
                    &&& j is Some
                    &&& func_ok(old(ctx)@, names_of(old(ctx).vars()), decls.funcs()[j.unwrap()].1, inst.1@)
                    &&& final(ctx).funcs_done() == k + 1
                    &&& final(ctx).stmts().len() == old(ctx).stmts().len() + 1
                    &&& final(ctx).stmts().drop_last() == old(ctx).stmts()
                    &&& func_made(
                        old(ctx)@,
                        old(ctx).vars(),
                        decls.funcs()[j.unwrap()].1,
                        inst.0,
                        inst.1@,
                        final(ctx).stmts().last(),
                    )
                },
            }
        }),
{
    if ctx.funcs_done >= ctx.funcs.len() {
        return Step::Idle;
    }
    let k = ctx.funcs_done;
    let x = copy_name(&ctx.funcs[k].0);
    let us = copy_types(&ctx.funcs[k].1);
    proof {
        assert(nominals_recorded_list(ctx.types@, ctx.funcs@[k as int].1@));
        lemma_latest(decls.funcs(), x);
    }
    let j = match find_latest(&decls.funcs, &x) {
        None => {
            return Step::Missing;
        },
        Some(j) => j,
    };
    let base_g = ctx.generics.len();
    match &decls.funcs[j].1 {
        FuncDecl::Bif(info, m, ps, ts, t) => {
            bind_params(ctx, ps, &us);
            if !(check_all_resolvable(ctx, ts) && check_resolvable(ctx, t)) {
                unbind_params(ctx, base_g);
                proof {
                    assert(ctx.generics@ =~= old(ctx).generics@);
                }
                return Step::Missing;
            }
            let ghost hs = ctx@;
            let ts1 = visit_types(ctx, ts, *info);
            let u = visit_type(ctx, t, *info);
            unbind_params(ctx, base_g);
            proof {
                assert(ctx.generics@ =~= old(ctx).generics@);
            }
            ctx.stmts.push(StmtKind::SMonoBif(copy_meta(m), x, Vec::new(), ts1, u).with(*info));
            ctx.funcs_done = k + 1;
            Step::Made
        },
        FuncDecl::Def(info, m, ps, pats, t, b) => {
            let base_v = ctx.vars.len();
            bind_params(ctx, ps, &us);
            let mut ns = var_names(ctx);
            bind_params_names(&mut ns, pats);
            let ok = check_params(ctx, pats) && check_resolvable(ctx, t) && check_block(ctx, &mut ns, b);
            if !ok {
                unbind_params(ctx, base_g);
                proof {
                    assert(ctx.generics@ =~= old(ctx).generics@);
                }
                return Step::Missing;
            }
            let ghost hs = ctx@;
            let qs = visit_params(ctx, pats);
            let u = visit_type(ctx, t, *info);
            let c = visit_block(ctx, b);
            unbind_vars(ctx, base_v);
            unbind_params(ctx, base_g);
            proof {
                assert(ctx.generics@ =~= old(ctx).generics@);
                assert(ctx.vars@ =~= old(ctx).vars@);
            }
            ctx.stmts.push(StmtKind::SMonoDef(copy_meta(m), x, us, qs, u, c).with(*info));
            ctx.funcs_done = k + 1;
            Step::Made
        },
    }
}

/// The top-level statement `s` is one the pass handles: a declaration, a
/// no-op, or a variable statement it handles.
pub open spec fn top_stmt_ok(gs: Seq<(Name, Type)>, ns: Seq<Name>, s: Stmt) -> bool {
    match s.kind {
        StmtKind::SDef(..) => true,
        StmtKind::SBif(..) => true,
        StmtKind::SEnum(..) => true,
        StmtKind::SBit(..) => true,
        StmtKind::SNoop => true,
        StmtKind::SVar(_, _) => stmt_ok(gs, ns, s),
        _ => false,
    }
}

impl Context {
    /// Whether `s` is a top-level statement the pass handles.
    pub fn top_stmt_handled(&self, s: &Stmt) -> (r: bool)
        ensures
            r == top_stmt_ok(self@, names_of(self.vars()), *s),
    {
        match &s.kind {
            StmtKind::SDef(..) => true,
            StmtKind::SBif(..) => true,
            StmtKind::SEnum(..) => true,
            StmtKind::SBit(..) => true,
            StmtKind::SNoop => true,
            StmtKind::SVar(_, _) => {
                let mut ns = var_names(self);
                check_stmt(self, &mut ns, s)
            },
            _ => false,
        }
    }

    /// The type instances recorded so far.
    pub fn recorded_types(&self) -> (r: &Vec<(Name, Vec<Type>)>)
        ensures
            r@ == self.type_instances(),
    {
        &self.types
    }

    /// The function instances recorded so far.
    pub fn recorded_funcs(&self) -> (r: &Vec<(Name, Vec<Type>)>)
        ensures
            r@ == self.func_instances(),
    {
        &self.funcs
    }

    /// The statements emitted so far.
    pub fn emitted(&self) -> (r: &Vec<Stmt>)
        ensures
            r@ == self.stmts(),
    {
        &self.stmts
    }

    /// Emits the statement `s` after those emitted so far.
    pub fn emit(&mut self, s: Stmt)
        ensures
            final(self)@ == old(self)@,
            final(self).vars() == old(self).vars(),
            final(self).type_instances() == old(self).type_instances(),
            final(self).func_instances() == old(self).func_instances(),
            final(self).types_done() == old(self).types_done(),
            final(self).funcs_done() == old(self).funcs_done(),
            final(self).stmts() == old(self).stmts().push(s),
            old(self).covered() ==> final(self).covered(),
    {
        self.stmts.push(s);
    }

    /// The statements emitted so far, leaving none.
    pub fn take_stmts(&mut self) -> (r: Vec<Stmt>)
        ensures
            r@ == old(self).stmts(),
            final(self).stmts() == Seq::<Stmt>::empty(),
            final(self)@ == old(self)@,
            final(self).vars() == old(self).vars(),
            final(self).type_instances() == old(self).type_instances(),
            final(self).func_instances() == old(self).func_instances(),
            final(self).types_done() == old(self).types_done(),
            final(self).funcs_done() == old(self).funcs_done(),
            old(self).covered() ==> final(self).covered(),
    {
        let mut r: Vec<Stmt> = Vec::new();
        std::mem::swap(&mut r, &mut self.stmts);
        r
    }
}

/// A top-level statement visited: a declaration is added to `decls`; a
/// variable statement is visited, its expression then its pattern, and
/// given back to be emitted; a no-op is dropped.
pub fn visit_top_stmt(ctx: &mut Context, decls: &mut Declarations, s: Stmt) -> (r: Option<Stmt>)
    requires
        top_stmt_ok(old(ctx)@, names_of(old(ctx).vars()), s),
        old(ctx).covered(),
    ensures
        final(ctx)@ == old(ctx)@,
        final(ctx).covered(),
        final(ctx).extends(*old(ctx)),
        match s.kind {
            StmtKind::SDef(m, x, gs, ps, t, b) => r is None && final(decls).types() == old(decls).types()
                && final(decls).funcs() == old(decls).funcs().push((x, FuncDecl::Def(s.info, m, gs, ps, t, b)))
                && final(ctx).vars() == old(ctx).vars(),
            StmtKind::SBif(m, x, gs, ts, t) => r is None && final(decls).types() == old(decls).types()
                && final(decls).funcs() == old(decls).funcs().push((x, FuncDecl::Bif(s.info, m, gs, ts, t)))
                && final(ctx).vars() == old(ctx).vars(),
            StmtKind::SEnum(m, x, gs, xts) => r is None && final(decls).funcs() == old(decls).funcs()
                && final(decls).types() == old(decls).types().push((x, TypeDecl::Enum(s.info, m, gs, xts)))
                && final(ctx).vars() == old(ctx).vars(),
            StmtKind::SBit(m, x, gs) => r is None && final(decls).funcs() == old(decls).funcs()
                && final(decls).types() == old(decls).types().push((x, TypeDecl::Bit(s.info, m, gs)))
                && final(ctx).vars() == old(ctx).vars(),
            StmtKind::SVar(_, _) => final(decls).types() == old(decls).types() && final(decls).funcs()
                == old(decls).funcs() && (r matches Some(v) && stmt_resolved(old(ctx)@, old(ctx).vars(), s, v)
                && final(ctx).vars() == stmt_env(old(ctx).vars(), v)),
            _ => r is None && final(decls).types() == old(decls).types() && final(decls).funcs()
                == old(decls).funcs() && final(ctx).vars() == old(ctx).vars(),
        },
{
    let info = s.info;
    match s.kind {
        StmtKind::SDef(m, x, gs, ps, t, b) => {
            decls.declare_func(x, FuncDecl::Def(info, m, gs, ps, t, b));
            None
        },
        StmtKind::SBif(m, x, gs, ts, t) => {
            decls.declare_func(x, FuncDecl::Bif(info, m, gs, ts, t));
            None
        },
        StmtKind::SEnum(m, x, gs, xts) => {
            decls.declare_type(x, TypeDecl::Enum(info, m, gs, xts));
            None
        },
        StmtKind::SBit(m, x, gs) => {
            decls.declare_type(x, TypeDecl::Bit(info, m, gs));
            None
        },
        StmtKind::SVar(p, e) => {
            let f = visit_expr(ctx, &e);
            let q = visit_val_pattern(ctx, &p);
            Some(StmtKind::SVar(q, f).with(info))
        },
        _ => None,
    }
}

/// What making the instances waiting came to.
pub enum Drain {
    /// Every recorded instance has been made.
    Done,
    /// The next type or function instance cannot be made (see `Step`).
    Missing,
    /// The number of rounds allowed ran out first.
    OutOfFuel,
}

/// The next type instance waiting in `ctx` cannot be made from `decls`.
pub open spec fn type_unmakeable(ctx: Context, decls: Declarations) -> bool {
    let k = ctx.types_done();
    let inst = ctx.type_instances()[k];
    &&& k < ctx.type_instances().len()
    &&& (latest(decls.types(), inst.0) matches Some(j) ==> decls.types()[j].1 matches TypeDecl::Enum(_, _, ps, xts)
        && !named_resolvable(params_bound(ctx@, ps@, inst.1@), xts@))
}

/// The next function instance waiting in `ctx` cannot be made from
/// `decls`.
pub open spec fn func_unmakeable(ctx: Context, decls: Declarations) -> bool {
    let k = ctx.funcs_done();
    let inst = ctx.func_instances()[k];
    &&& k < ctx.func_instances().len()
    &&& (latest(decls.funcs(), inst.0) matches Some(j) ==> !func_ok(
        ctx@,
        names_of(ctx.vars()),
        decls.funcs()[j].1,
        inst.1@,
    ))
}

/// `new` holds the statements of `old`, in the same places.
pub open spec fn extends_stmts(old: Seq<Stmt>, new: Seq<Stmt>) -> bool {
    &&& old.len() <= new.len()
    &&& forall|i: int| 0 <= i < old.len() ==> #[trigger] new[i] == old[i]
}

/// Makes the instances waiting, and those they ask for in turn, type
/// instances before function instances, for at most `fuel` rounds of one
/// function instance each: stops when none waits, when one cannot be made,
/// or when the rounds run out.
pub fn make_instances(ctx: &mut Context, decls: &Declarations, fuel: usize) -> (r: Drain)
    requires
        old(ctx).covered(),
    ensures
        final(ctx).covered(),
        final(ctx)@ == old(ctx)@,
        final(ctx).vars() == old(ctx).vars(),
        extends_insts(old(ctx).type_instances(), final(ctx).type_instances()),
        extends_insts(old(ctx).func_instances(), final(ctx).func_instances()),
        extends_stmts(old(ctx).stmts(), final(ctx).stmts()),
        old(ctx).types_done() <= final(ctx).types_done(),
        old(ctx).funcs_done() <= final(ctx).funcs_done(),
        match r {
            Drain::Done => final(ctx).types_done() == final(ctx).type_instances().len()
                && final(ctx).funcs_done() == final(ctx).func_instances().len(),
            Drain::Missing => type_unmakeable(*final(ctx), *decls) || func_unmakeable(*final(ctx), *decls),
            Drain::OutOfFuel => true,
        },
{
    let mut n: usize = fuel;
    loop
        invariant
            ctx.covered(),
            ctx@ == old(ctx)@,
            ctx.vars() == old(ctx).vars(),
            extends_insts(old(ctx).type_instances(), ctx.type_instances()),
            extends_insts(old(ctx).func_instances(), ctx.func_instances()),
            extends_stmts(old(ctx).stmts(), ctx.stmts()),
            old(ctx).types_done() <= ctx.types_done(),
            old(ctx).funcs_done() <= ctx.funcs_done(),
        decreases n,
    {
        if n == 0 {
            return Drain::OutOfFuel;
        }
        n = n - 1;
        let ghost c1 = *ctx;
        match instantiate_type(ctx, decls) {
            Step::Missing => {
                return Drain::Missing;
            },
            Step::Made => {
                proof {
                    assert(ctx.stmts().drop_last() == c1.stmts());
                    assert forall|i: int| 0 <= i < c1.stmts().len() implies #[trigger] ctx.stmts()[i] == c1.stmts()[i] by {
                        assert(ctx.stmts().drop_last()[i] == ctx.stmts()[i]);
                    }
                }
                continue;
            },
            Step::Idle => {},
        }
        let ghost c2 = *ctx;
        match instantiate_func(ctx, decls) {
            Step::Missing => {
                return Drain::Missing;
            },
            Step::Made => {
                proof {
                    assert(ctx.stmts().drop_last() == c2.stmts());
                    assert forall|i: int| 0 <= i < c2.stmts().len() implies #[trigger] ctx.stmts()[i] == c2.stmts()[i] by {
                        assert(ctx.stmts().drop_last()[i] == ctx.stmts()[i]);
                    }
                }
            },
            Step::Idle => {
                return Drain::Done;
            },
        }
    }
}

} // verus!
