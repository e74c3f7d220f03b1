//! The high-level intermediate representation of Arc-Lang programs: types,
//! patterns, expressions, statements and blocks, each node carrying where it
//! came from, and the operations that rewrite the types a program carries.
//!
//! Lists are kept in vectors and shared nodes behind reference counts.
use std::rc::Rc;
use vstd::prelude::*;

verus! {

/// A name of a variable, a field, a function or a type.
pub type Name = String;

/// A position in a tuple.
pub type Index = i32;

/// A name of a type parameter.
pub type Generic = Name;

/// Where a node came from: built into the language, or a range of bytes of
/// a source file.
#[derive(Clone, Copy, Debug, PartialEq, Eq, Structural)]
pub enum Info {
    Builtin,
    Source(usize, usize, usize),
}

/// A type: a shared type node.
#[derive(Clone, Debug)]
pub struct Type {
    pub kind: Rc<TypeKind>,
}

/// The forms of types.
#[derive(Debug)]
pub enum TypeKind {
    TFun(Vec<Type>, Type),
    TTuple(Vec<Type>, bool),
    TRecord(Type),
    TNominal(Name, Vec<Type>),
    TAlias(Info, Info, Type),
    TRowEmpty,
    TRowExtend((Name, Type), Type),
    TRecordConcat(Type, Type),
    TGeneric(Name),
    TArray(Type, Option<i32>),
    TArrayConcat(Type, Type),
    TUnit,
    TNever,
    TVar(Name),
    TError,
}

/// A literal. A float is held as the bit pattern of its `f32`.
#[derive(Clone, Debug)]
pub enum Const {
    CInt(i32),
    CFloat(u32),
    CBool(bool),
    CString(String),
    CUnit,
    CChar(char),
}

/// Annotations of a definition: names, each with an optional literal.
pub type Meta = Vec<(Name, Option<Const>)>;

/// A pattern with its type and origin.
#[derive(Debug)]
pub struct Pattern {
    pub t: Type,
    pub info: Info,
    pub kind: Rc<PatternKind>,
}

/// The forms of patterns.
#[derive(Debug)]
pub enum PatternKind {
    PIgnore,
    POr(Pattern, Pattern),
    PNoop(Pattern),
    PRecord(Vec<(Name, Pattern)>),
    PRecordConcat(Pattern, Pattern),
    PArray(Vec<Pattern>),
    PArrayConcat(Pattern, Pattern),
    PTuple(Vec<Pattern>),
    PConst(Const),
    PVar(Name),
    PVariant(Name, Vec<Type>, Name, Pattern),
    PError,
}

/// A sequence of statements and the expression that gives its value.
#[derive(Debug)]
pub struct Block {
    pub ss: Vec<Stmt>,
    pub e: Expr,
    pub info: Info,
}

/// A statement with its origin.
#[derive(Debug)]
pub struct Stmt {
    pub info: Info,
    pub kind: StmtKind,
}

/// A recursive definition: its name, type parameters, parameters, result
/// type and body.
pub type RecDef = (Name, Vec<Generic>, Vec<Pattern>, Type, Block);

/// The forms of statements.
#[derive(Debug)]
pub enum StmtKind {
    SDef(Meta, Name, Vec<Generic>, Vec<Pattern>, Type, Block),
    SRecDef(Meta, Vec<RecDef>),
    SBif(Meta, Name, Vec<Generic>, Vec<Type>, Type),
    SEnum(Meta, Name, Vec<Generic>, Vec<(Name, Type)>),
    SBit(Meta, Name, Vec<Generic>),
    SVar(Pattern, Expr),
    SNoop,
    SMonoDef(Meta, Name, Vec<Type>, Vec<Pattern>, Type, Block),
    SMonoBif(Meta, Name, Vec<Type>, Vec<Type>, Type),
    SMonoEnum(Meta, Name, Vec<Type>, Vec<(Name, Type)>),
    SMonoBit(Meta, Name, Vec<Type>),
}

/// An expression with its type and origin.
#[derive(Debug)]
pub struct Expr {
    pub info: Info,
    pub t: Type,
    pub kind: Rc<ExprKind>,
}

/// The forms of expressions.
#[derive(Debug)]
pub enum ExprKind {
    EConst(Const),
    EFun(Vec<Pattern>, Type, Block),
    EFunCall(Expr, Vec<Expr>),
    EFunCallDirect(Name, Vec<Type>, Vec<Expr>),
    EFunReturn(Expr),
    ELoop(Block),
    EBreak(Expr),
    EContinue,
    EMatch(Expr, Vec<(Pattern, Block)>),
    EArray(Vec<Expr>),
    EArrayConcat(Expr, Expr),
    EArrayAccess(Expr, Expr),
    EIfElse(Expr, Block, Block),
    ERecord(Vec<(Name, Expr)>),
    ERecordAccess(Expr, Name),
    ERecordConcat(Expr, Expr),
    EMut(Expr, Expr),
    EVar(Name),
    EDef(Name, Vec<Type>),
    EVariant(Name, Vec<Type>, Name, Expr),
    EVariantAccess(Name, Vec<Type>, Name, Expr),
    EVariantCheck(Name, Vec<Type>, Name, Expr),
    EDo(Block),
    ENoop(Expr),
    ETuple(Vec<Expr>),
    ETupleAccess(Expr, Index),
    EFor(Pattern, Expr, Block),
    EWhile(Expr, Block),
    ESsaLoop(Vec<(Pattern, Expr)>, Block),
    ESsaContinue(Vec<(Pattern, Expr)>),
    EError,
}

/// Calls `Rc::clone`: another pointer to the same node, whose value is the
/// node's value.
#[verifier::external_body]
fn share<T>(r: &Rc<T>) -> (s: Rc<T>)
    ensures
        s == *r,
{
    Rc::clone(r)
}

/// Another handle on the same type.
pub fn copy_type(t: &Type) -> (r: Type)
    ensures
        r == *t,
{
    Type { kind: share(&t.kind) }
}

/// A handle on the same expression.
pub fn copy_expr(e: &Expr) -> (r: Expr)
    ensures
        r == *e,
{
    Expr { info: e.info, t: copy_type(&e.t), kind: share(&e.kind) }
}

/// Handles on the same types, in order.
pub fn copy_types(ts: &Vec<Type>) -> (r: Vec<Type>)
    ensures
        r@ == ts@,
{
    let mut r: Vec<Type> = Vec::new();
    let mut i: usize = 0;
    while i < ts.len()
        invariant
            i <= ts@.len(),
            r@ == ts@.take(i as int),
        decreases ts.len() - i,
    {
        r.push(copy_type(&ts[i]));
        proof {
            assert(ts@.take(i + 1) =~= ts@.take(i as int).push(ts@[i as int]));
        }
        i = i + 1;
    }
    proof {
        assert(ts@.take(ts@.len() as int) =~= ts@);
    }
    r
}

/// A copy of a name.
pub fn copy_name(x: &Name) -> (r: Name)
    ensures
        r == *x,
{
    x.clone()
}

impl Const {
    /// A copy of the literal.
    pub fn copy(&self) -> (r: Const)
        ensures
            r == *self,
    {
        match self {
            Const::CInt(i) => Const::CInt(*i),
            Const::CFloat(b) => Const::CFloat(*b),
            Const::CBool(b) => Const::CBool(*b),
            Const::CString(s) => Const::CString(s.clone()),
            Const::CUnit => Const::CUnit,
            Const::CChar(c) => Const::CChar(*c),
        }
    }
}

/// `a` and `b` are the same type node: the same form, with equal parts and
/// lists of equal types.
pub open spec fn same_type_node(a: TypeKind, b: TypeKind) -> bool {
    match (a, b) {
        (TypeKind::TFun(ts, t), TypeKind::TFun(us, u)) => ts@ == us@ && t == u,
        (TypeKind::TTuple(ts, c), TypeKind::TTuple(us, d)) => ts@ == us@ && c == d,
        (TypeKind::TNominal(x, ts), TypeKind::TNominal(y, us)) => x == y && ts@ == us@,
        _ => a == b,
    }
}

impl Type {
    /// The type's node; the types it holds are shared.
    pub fn kind(&self) -> (r: TypeKind)
        ensures
            same_type_node(r, *self.kind),
    {
        match &*self.kind {
            TypeKind::TFun(ts, t) => TypeKind::TFun(copy_types(ts), copy_type(t)),
            TypeKind::TTuple(ts, c) => TypeKind::TTuple(copy_types(ts), *c),
            TypeKind::TRecord(t) => TypeKind::TRecord(copy_type(t)),
            TypeKind::TNominal(x, ts) => TypeKind::TNominal(copy_name(x), copy_types(ts)),
            TypeKind::TAlias(i0, i1, t) => TypeKind::TAlias(*i0, *i1, copy_type(t)),
            TypeKind::TRowEmpty => TypeKind::TRowEmpty,
            TypeKind::TRowExtend(xt, r) => TypeKind::TRowExtend(
                (copy_name(&xt.0), copy_type(&xt.1)),
                copy_type(r),
            ),
            TypeKind::TRecordConcat(t0, t1) => TypeKind::TRecordConcat(copy_type(t0), copy_type(t1)),
            TypeKind::TGeneric(x) => TypeKind::TGeneric(copy_name(x)),
            TypeKind::TArray(t, n) => TypeKind::TArray(copy_type(t), *n),
            TypeKind::TArrayConcat(t0, t1) => TypeKind::TArrayConcat(copy_type(t0), copy_type(t1)),
            TypeKind::TUnit => TypeKind::TUnit,
            TypeKind::TNever => TypeKind::TNever,
            TypeKind::TVar(x) => TypeKind::TVar(copy_name(x)),
            TypeKind::TError => TypeKind::TError,
        }
    }
}

/// Two types are equal: the same form with equal parts, whatever the
/// origins of aliases; two array concatenations are never equal.
pub open spec fn types_equal(a: Type, b: Type) -> bool
    decreases a,
{
    type_nodes_equal(*a.kind, *b.kind)
}

/// Two lists of types of the same length, equal one by one.
pub open spec fn type_lists_equal(a: Seq<Type>, b: Seq<Type>) -> bool
    decreases a,
{
    if a.len() == 0 {
        b.len() == 0
    } else {
        &&& b.len() == a.len()
        &&& type_lists_equal(a.drop_last(), b.drop_last())
        &&& types_equal(a.last(), b.last())
    }
}

/// Two type nodes are equal (see `types_equal`).
pub open spec fn type_nodes_equal(a: TypeKind, b: TypeKind) -> bool
    decreases a,
{
    match (a, b) {
        (TypeKind::TFun(ts0, t0), TypeKind::TFun(ts1, t1)) => type_lists_equal(ts0@, ts1@) && types_equal(t0, t1),
        (TypeKind::TTuple(ts0, c0), TypeKind::TTuple(ts1, c1)) => type_lists_equal(ts0@, ts1@) && c0 == c1,
        (TypeKind::TRecord(t0), TypeKind::TRecord(t1)) => types_equal(t0, t1),
        (TypeKind::TNominal(x0, ts0), TypeKind::TNominal(x1, ts1)) => x0@ == x1@ && type_lists_equal(ts0@, ts1@),
        (TypeKind::TAlias(_, _, t0), TypeKind::TAlias(_, _, t1)) => types_equal(t0, t1),
        (TypeKind::TRowEmpty, TypeKind::TRowEmpty) => true,
        (TypeKind::TRowExtend(xt0, t0), TypeKind::TRowExtend(xt1, t1)) => xt0.0@ == xt1.0@ && types_equal(xt0.1, xt1.1)
            && types_equal(t0, t1),
        (TypeKind::TRecordConcat(t00, t01), TypeKind::TRecordConcat(t10, t11)) => types_equal(t00, t10) && types_equal(t01, t11),
        (TypeKind::TGeneric(x0), TypeKind::TGeneric(x1)) => x0@ == x1@,
        (TypeKind::TArray(t0, n0), TypeKind::TArray(t1, n1)) => types_equal(t0, t1) && n0 == n1,
        (TypeKind::TUnit, TypeKind::TUnit) => true,
        (TypeKind::TNever, TypeKind::TNever) => true,
        (TypeKind::TVar(x0), TypeKind::TVar(x1)) => x0@ == x1@,
        (TypeKind::TError, TypeKind::TError) => true,
        _ => false,
    }
}

impl Type {
    /// Whether two types are equal (see `types_equal`).
    pub fn eq(&self, other: &Type) -> (r: bool)
        ensures
            r == types_equal(*self, *other),
        decreases *self,
    {
        TypeKind::eq(&self.kind, &other.kind)
    }
}

/// Whether two lists of types are equal one by one.
pub fn type_lists_eq(a: &Vec<Type>, b: &Vec<Type>) -> (r: bool)
    ensures
        r == type_lists_equal(a@, b@),
    decreases *a,
{
    if a.len() != b.len() {
        proof {
            lemma_type_lists_equal_len(a@, b@);
        }
        return false;
    }
    let mut i: usize = 0;
    while i < a.len()
        invariant
            i <= a@.len(),
            a@.len() == b@.len(),
            type_lists_equal(a@.take(i as int), b@.take(i as int)),
        decreases a.len() - i,
    {
        proof {
            assert(decreases_to!(*a => a@[i as int]));
        }
        let same = a[i].eq(&b[i]);
        proof {
            assert(a@.take(i + 1).drop_last() =~= a@.take(i as int));
            assert(b@.take(i + 1).drop_last() =~= b@.take(i as int));
        }
        if !same {
            proof {
                lemma_type_lists_equal_prefix(a@, b@, i + 1);
            }
            return false;
        }
        i = i + 1;
    }
    proof {
        assert(a@.take(a@.len() as int) =~= a@);
        assert(b@.take(b@.len() as int) =~= b@);
    }
    true
}

/// Equal lists have the same length.
proof fn lemma_type_lists_equal_len(a: Seq<Type>, b: Seq<Type>)
    ensures
        type_lists_equal(a, b) ==> a.len() == b.len(),
{
}

/// Lists equal one by one have prefixes equal one by one.
proof fn lemma_type_lists_equal_prefix(a: Seq<Type>, b: Seq<Type>, n: int)
    requires
        0 <= n <= a.len(),
        a.len() == b.len(),
    ensures
        type_lists_equal(a, b) ==> type_lists_equal(a.take(n), b.take(n)),
    decreases a.len(),
{
    if a.len() > n {
        lemma_type_lists_equal_prefix(a.drop_last(), b.drop_last(), n);
        assert(a.drop_last().take(n) =~= a.take(n));
        assert(b.drop_last().take(n) =~= b.take(n));
    } else {
        assert(a.take(n) =~= a);
        assert(b.take(n) =~= b);
    }
}

impl TypeKind {
    /// Whether two type nodes are equal (see `types_equal`).
    pub fn eq(&self, other: &TypeKind) -> (r: bool)
        ensures
            r == type_nodes_equal(*self, *other),
        decreases *self,
    {
        match (self, other) {
            (TypeKind::TFun(ts0, t0), TypeKind::TFun(ts1, t1)) => type_lists_eq(ts0, ts1) && t0.eq(t1),
            (TypeKind::TTuple(ts0, c0), TypeKind::TTuple(ts1, c1)) => type_lists_eq(ts0, ts1) && *c0 == *c1,
            (TypeKind::TRecord(t0), TypeKind::TRecord(t1)) => t0.eq(t1),
            (TypeKind::TNominal(x0, ts0), TypeKind::TNominal(x1, ts1)) => *x0 == *x1 && type_lists_eq(ts0, ts1),
            (TypeKind::TAlias(_, _, t0), TypeKind::TAlias(_, _, t1)) => t0.eq(t1),
            (TypeKind::TRowEmpty, TypeKind::TRowEmpty) => true,
            (TypeKind::TRowExtend(xt0, t0), TypeKind::TRowExtend(xt1, t1)) => xt0.0 == xt1.0 && xt0.1.eq(&xt1.1) && t0.eq(t1),
            (TypeKind::TRecordConcat(t00, t01), TypeKind::TRecordConcat(t10, t11)) => t00.eq(t10) && t01.eq(t11),
            (TypeKind::TGeneric(x0), TypeKind::TGeneric(x1)) => *x0 == *x1,
            (TypeKind::TArray(t0, n0), TypeKind::TArray(t1, n1)) => t0.eq(t1) && *n0 == *n1,
            (TypeKind::TUnit, TypeKind::TUnit) => true,
            (TypeKind::TNever, TypeKind::TNever) => true,
            (TypeKind::TVar(x0), TypeKind::TVar(x1)) => *x0 == *x1,
            (TypeKind::TError, TypeKind::TError) => true,
            _ => false,
        }
    }
}

impl From<TypeKind> for Type {
    /// A type node made into a type.
    fn from(kind: TypeKind) -> (r: Type) {
        Type { kind: Rc::new(kind) }
    }
}

impl vstd::std_specs::convert::FromSpecImpl<TypeKind> for Type {
    open spec fn obeys_from_spec() -> bool {
        true
    }

    open spec fn from_spec(kind: TypeKind) -> Type {
        Type { kind: Rc::new(kind) }
    }
}

/// Two `f32` bit patterns denote equal floats: neither is a NaN, and they
/// are the same pattern or both are zeros of either sign.
pub open spec fn float_bits_equal(a: u32, b: u32) -> bool {
    let a_nan = a & 0x7f80_0000u32 == 0x7f80_0000u32 && a & 0x007f_ffffu32 != 0u32;
    let b_nan = b & 0x7f80_0000u32 == 0x7f80_0000u32 && b & 0x007f_ffffu32 != 0u32;
    !a_nan && !b_nan && (a == b || (a & 0x7fff_ffffu32 == 0u32 && b & 0x7fff_ffffu32 == 0u32))
}

/// Two literals are equal: of the same form with equal contents, floats
/// compared as floats.
pub open spec fn consts_equal(a: Const, b: Const) -> bool {
    match (a, b) {
        (Const::CInt(x), Const::CInt(y)) => x == y,
        (Const::CFloat(x), Const::CFloat(y)) => float_bits_equal(x, y),
        (Const::CBool(x), Const::CBool(y)) => x == y,
        (Const::CString(x), Const::CString(y)) => x@ == y@,
        (Const::CUnit, Const::CUnit) => true,
        (Const::CChar(x), Const::CChar(y)) => x == y,
        _ => false,
    }
}

impl Const {
    /// Whether two literals are equal (see `consts_equal`).
    pub fn eq(&self, other: &Const) -> (r: bool)
        ensures
            r == consts_equal(*self, *other),
    {
        match (self, other) {
            (Const::CInt(x), Const::CInt(y)) => *x == *y,
            (Const::CFloat(x), Const::CFloat(y)) => {
                let x_nan = *x & 0x7f80_0000u32 == 0x7f80_0000u32 && *x & 0x007f_ffffu32 != 0u32;
                let y_nan = *y & 0x7f80_0000u32 == 0x7f80_0000u32 && *y & 0x007f_ffffu32 != 0u32;
                !x_nan && !y_nan && (*x == *y || (*x & 0x7fff_ffffu32 == 0u32 && *y & 0x7fff_ffffu32
                    == 0u32))
            },
            (Const::CBool(x), Const::CBool(y)) => *x == *y,
            (Const::CString(x), Const::CString(y)) => *x == *y,
            (Const::CUnit, Const::CUnit) => true,
            (Const::CChar(x), Const::CChar(y)) => *x == *y,
            _ => false,
        }
    }
}

/// `t` is a row: a chain of field extensions ending in the empty row.
pub open spec fn is_row(t: Type) -> bool
    decreases t,
{
    match *t.kind {
        TypeKind::TRowEmpty => true,
        TypeKind::TRowExtend(_, r) => is_row(r),
        _ => false,
    }
}

/// The fields of a row, outermost first.
pub open spec fn row_fields(t: Type) -> Seq<(Name, Type)>
    decreases t,
{
    match *t.kind {
        TypeKind::TRowExtend(xt, r) => seq![xt] + row_fields(r),
        _ => Seq::empty(),
    }
}

/// The fields of a row, outermost first.
pub fn row_to_fields(t: Type) -> (r: Vec<(Name, Type)>)
    requires
        is_row(t),
    ensures
        r@ == row_fields(t),
{
    let mut xts: Vec<(Name, Type)> = Vec::new();
    let mut cur = t;
    let ghost all = row_fields(t);
    while !matches!(&*cur.kind, TypeKind::TRowEmpty)
        invariant
            is_row(cur),
            all == xts@ + row_fields(cur),
        decreases row_fields(cur).len(),
    {
        let next = match &*cur.kind {
            TypeKind::TRowExtend(xt, r) => {
                xts.push((copy_name(&xt.0), copy_type(&xt.1)));
                copy_type(r)
            },
            _ => {
                proof {
                    assert(false);
                }
                copy_type(&cur)
            },
        };
        proof {
            assert(all =~= xts@ + row_fields(next));
        }
        cur = next;
    }
    proof {
        assert(row_fields(cur) =~= Seq::<(Name, Type)>::empty());
        assert(all =~= xts@);
    }
    xts
}

/// The row that extends the empty row by each field in turn, so that the
/// last field is outermost.
pub fn fields_to_row(xts: Vec<(Name, Type)>) -> (r: Type)
    ensures
        is_row(r),
        row_fields(r) == xts@.reverse(),
{
    let mut r = Type { kind: Rc::new(TypeKind::TRowEmpty) };
    let mut i: usize = 0;
    proof {
        assert(row_fields(r) =~= xts@.take(0).reverse());
    }
    while i < xts.len()
        invariant
            i <= xts@.len(),
            is_row(r),
            row_fields(r) == xts@.take(i as int).reverse(),
        decreases xts.len() - i,
    {
        let xt = (copy_name(&xts[i].0), copy_type(&xts[i].1));
        let ghost prev = r;
        r = Type { kind: Rc::new(TypeKind::TRowExtend(xt, r)) };
        proof {
            assert(row_fields(r) == seq![xt] + row_fields(prev));
            assert(xts@.take(i + 1).reverse() =~= seq![xts@[i as int]] + xts@.take(i as int).reverse());
        }
        i = i + 1;
    }
    proof {
        assert(xts@.take(xts@.len() as int) =~= xts@);
    }
    r
}

/// `c` is a chain of `n` steps of `f` from `t` to `r`.
pub open spec fn type_chain<F: Fn(Type) -> Type>(f: F, c: Seq<Type>, t: Type, r: Type, n: nat) -> bool {
    &&& c.len() == n + 1
    &&& c[0] == t
    &&& c[n as int] == r
    &&& forall|i: int| 0 <= i < n ==> #[trigger] chain_step(f, c, i)
}

/// Step `i` of the chain `c` is a result of `f`.
pub open spec fn chain_step<F: Fn(Type) -> Type>(f: F, c: Seq<Type>, i: int) -> bool {
    f.ensures((c[i],), c[i + 1])
}

/// `r` is what `n` applications of `f`, one after the other, can give for
/// `t`.
pub open spec fn type_mapped<F: Fn(Type) -> Type>(f: F, t: Type, r: Type, n: nat) -> bool {
    exists|c: Seq<Type>| #[trigger] type_chain(f, c, t, r, n)
}

/// Each type of `rs` is mapped from the type of `ts` at its place.
pub open spec fn types_mapped<F: Fn(Type) -> Type>(f: F, ts: Seq<Type>, rs: Seq<Type>, n: nat) -> bool {
    &&& ts.len() == rs.len()
    &&& forall|i: int| 0 <= i < ts.len() ==> #[trigger] type_mapped(f, ts[i], rs[i], n)
}

/// Each named type of `rs` has the name, and a type mapped from the type,
/// of the entry of `ts` at its place.
pub open spec fn named_types_mapped<F: Fn(Type) -> Type>(
    f: F,
    ts: Seq<(Name, Type)>,
    rs: Seq<(Name, Type)>,
    n: nat,
) -> bool {
    &&& ts.len() == rs.len()
    &&& forall|i: int| 0 <= i < ts.len() ==> #[trigger] rs[i].0 == ts[i].0
    &&& forall|i: int| 0 <= i < ts.len() ==> #[trigger] type_mapped(f, ts[i].1, rs[i].1, n)
}

/// `r` is the pattern `p` with each type it carries mapped `n` times
/// through `f`.
pub open spec fn pattern_mapped<F: Fn(Type) -> Type>(f: F, p: Pattern, r: Pattern, n: nat) -> bool
    decreases p,
{
    &&& r.info == p.info
    &&& type_mapped(f, p.t, r.t, n)
    &&& match (*p.kind, *r.kind) {
        (PatternKind::PIgnore, PatternKind::PIgnore) => true,
        (PatternKind::POr(a0, a1), PatternKind::POr(b0, b1)) => pattern_mapped(f, a0, b0, n) && pattern_mapped(f, a1, b1, n),
        (PatternKind::PNoop(a), PatternKind::PNoop(b)) => pattern_mapped(f, a, b, n),
        (PatternKind::PRecord(xs), PatternKind::PRecord(ys)) => named_patterns_mapped(f, xs@, ys@, n),
        (PatternKind::PRecordConcat(a0, a1), PatternKind::PRecordConcat(b0, b1)) => pattern_mapped(f, a0, b0, n)
            && pattern_mapped(f, a1, b1, n),
        (PatternKind::PArray(xs), PatternKind::PArray(ys)) => patterns_mapped(f, xs@, ys@, n),
        (PatternKind::PArrayConcat(a0, a1), PatternKind::PArrayConcat(b0, b1)) => pattern_mapped(f, a0, b0, n)
            && pattern_mapped(f, a1, b1, n),
        (PatternKind::PTuple(xs), PatternKind::PTuple(ys)) => patterns_mapped(f, xs@, ys@, n),
        (PatternKind::PConst(c), PatternKind::PConst(d)) => c == d,
        (PatternKind::PVar(x), PatternKind::PVar(y)) => x == y,
        (PatternKind::PVariant(xs, ts, x, a), PatternKind::PVariant(ys, us, y, b)) => xs == ys && types_mapped(f, ts@, us@, n)
            && x == y && pattern_mapped(f, a, b, n),
        (PatternKind::PError, PatternKind::PError) => true,
        _ => false,
    }
}

/// Each pattern of `rs` is mapped from the pattern of `ps` at its place.
pub open spec fn patterns_mapped<F: Fn(Type) -> Type>(f: F, ps: Seq<Pattern>, rs: Seq<Pattern>, n: nat) -> bool
    decreases ps,
{
    if ps.len() == 0 {
        rs.len() == 0
    } else {
        &&& rs.len() == ps.len()
        &&& patterns_mapped(f, ps.drop_last(), rs.drop_last(), n)
        &&& pattern_mapped(f, ps.last(), rs.last(), n)
    }
}

/// Each named pattern of `rs` has the name, and a pattern mapped from the
/// pattern, of the entry of `ps` at its place.
pub open spec fn named_patterns_mapped<F: Fn(Type) -> Type>(
    f: F,
    ps: Seq<(Name, Pattern)>,
    rs: Seq<(Name, Pattern)>,
    n: nat,
) -> bool
    decreases ps,
{
    if ps.len() == 0 {
        rs.len() == 0
    } else {
        &&& rs.len() == ps.len()
        &&& named_patterns_mapped(f, ps.drop_last(), rs.drop_last(), n)
        &&& rs.last().0 == ps.last().0
        &&& pattern_mapped(f, ps.last().1, rs.last().1, n)
    }
}

/// `f` can be applied to every type.
pub open spec fn applies_to_types<F: Fn(Type) -> Type>(f: F) -> bool {
    forall|t: Type| #[trigger] f.requires((t,))
}

/// Applies `f` to a type once.
fn apply_once<F: Fn(Type) -> Type>(f: &F, t: Type) -> (r: Type)
    requires
        applies_to_types(f),
    ensures
        type_mapped(f, t, r, 1),
{
    let ghost t0 = t;
    let r = f(t);
    proof {
        let c = seq![t0, r];
        assert(chain_step(f, c, 0));
        assert(type_chain(f, c, t0, r, 1));
    }
    r
}

/// Applies `f` to each type of a list.
fn map_types<F: Fn(Type) -> Type>(f: &F, ts: &Vec<Type>) -> (r: Vec<Type>)
    requires
        applies_to_types(f),
    ensures
        types_mapped(f, ts@, r@, 1),
{
    let mut r: Vec<Type> = Vec::new();
    let mut i: usize = 0;
    while i < ts.len()
        invariant
            i <= ts@.len(),
            applies_to_types(f),
            r@.len() == i,
            forall|j: int| 0 <= j < i ==> #[trigger] type_mapped(f, ts@[j], r@[j], 1),
        decreases ts.len() - i,
    {
        r.push(apply_once(f, copy_type(&ts[i])));
        i = i + 1;
    }
    r
}

/// Applies `f` to the type of each named type of a list.
fn map_named_types<F: Fn(Type) -> Type>(f: &F, ts: &Vec<(Name, Type)>) -> (r: Vec<(Name, Type)>)
    requires
        applies_to_types(f),
    ensures
        named_types_mapped(f, ts@, r@, 1),
{
    let mut r: Vec<(Name, Type)> = Vec::new();
    let mut i: usize = 0;
    while i < ts.len()
        invariant
            i <= ts@.len(),
            applies_to_types(f),
            r@.len() == i,
            forall|j: int| 0 <= j < i ==> #[trigger] r@[j].0 == ts@[j].0,
            forall|j: int| 0 <= j < i ==> #[trigger] type_mapped(f, ts@[j].1, r@[j].1, 1),
        decreases ts.len() - i,
    {
        let x = copy_name(&ts[i].0);
        let u = apply_once(f, copy_type(&ts[i].1));
        let ghost before = r@;
        r.push((x, u));
        proof {
            assert(x == ts@[i as int].0);
            assert(type_mapped(f, ts@[i as int].1, u, 1));
            assert(r@[i as int] == (x, u));
            assert forall|j: int| 0 <= j < i + 1 implies #[trigger] r@[j].0 == ts@[j].0 by {
                if j < i {
                    assert(r@[j] == before[j]);
                }
            }
            assert forall|j: int| 0 <= j < i + 1 implies #[trigger] type_mapped(f, ts@[j].1, r@[j].1, 1) by {
                if j < i {
                    assert(r@[j] == before[j]);
                }
            }
        }
        i = i + 1;
    }
    r
}

/// A copy of a list of names.
fn copy_names(xs: &Vec<Name>) -> (r: Vec<Name>)
    ensures
        r@ == xs@,
{
    let mut r: Vec<Name> = Vec::new();
    let mut i: usize = 0;
    while i < xs.len()
        invariant
            i <= xs@.len(),
            r@ == xs@.take(i as int),
        decreases xs.len() - i,
    {
        r.push(copy_name(&xs[i]));
        proof {
            assert(xs@.take(i + 1) =~= xs@.take(i as int).push(xs@[i as int]));
        }
        i = i + 1;
    }
    proof {
        assert(xs@.take(xs@.len() as int) =~= xs@);
    }
    r
}

/// A copy of the annotations of a definition.
pub fn copy_meta(m: &Meta) -> (r: Meta)
    ensures
        r@ == m@,
{
    let mut r: Meta = Vec::new();
    let mut i: usize = 0;
    while i < m.len()
        invariant
            i <= m@.len(),
            r@ == m@.take(i as int),
        decreases m.len() - i,
    {
        let c = match &m[i].1 {
            Some(c) => Some(c.copy()),
            None => None,
        };
        r.push((copy_name(&m[i].0), c));
        proof {
            assert(m@.take(i + 1) =~= m@.take(i as int).push(m@[i as int]));
        }
        i = i + 1;
    }
    proof {
        assert(m@.take(m@.len() as int) =~= m@);
    }
    r
}

/// The pattern with each type it carries mapped through `f`.
fn map_pattern<F: Fn(Type) -> Type>(f: &F, p: &Pattern) -> (r: Pattern)
    requires
        applies_to_types(f),
    ensures
        pattern_mapped(f, *p, r, 1),
    decreases *p,
{
    let t = apply_once(f, copy_type(&p.t));
    let kind = match &*p.kind {
        PatternKind::PIgnore => PatternKind::PIgnore,
        PatternKind::POr(a0, a1) => PatternKind::POr(map_pattern(f, a0), map_pattern(f, a1)),
        PatternKind::PNoop(a) => PatternKind::PNoop(map_pattern(f, a)),
        PatternKind::PRecord(xs) => PatternKind::PRecord(map_named_patterns(f, xs)),
        PatternKind::PRecordConcat(a0, a1) => PatternKind::PRecordConcat(map_pattern(f, a0), map_pattern(f, a1)),
        PatternKind::PArray(xs) => PatternKind::PArray(map_patterns(f, xs)),
        PatternKind::PArrayConcat(a0, a1) => PatternKind::PArrayConcat(map_pattern(f, a0), map_pattern(f, a1)),
        PatternKind::PTuple(xs) => PatternKind::PTuple(map_patterns(f, xs)),
        PatternKind::PConst(c) => PatternKind::PConst(c.copy()),
        PatternKind::PVar(x) => PatternKind::PVar(copy_name(x)),
        PatternKind::PVariant(xs, ts, x, a) => PatternKind::PVariant(
            copy_name(xs),
            map_types(f, ts),
            copy_name(x),
            map_pattern(f, a),
        ),
        PatternKind::PError => PatternKind::PError,
    };
    Pattern { t, info: p.info, kind: Rc::new(kind) }
}

/// Each pattern of a list with its types mapped through `f`.
fn map_patterns<F: Fn(Type) -> Type>(f: &F, ps: &Vec<Pattern>) -> (r: Vec<Pattern>)
    requires
        applies_to_types(f),
    ensures
        patterns_mapped(f, ps@, r@, 1),
    decreases *ps,
{
    let mut r: Vec<Pattern> = Vec::new();
    let mut i: usize = 0;
    while i < ps.len()
        invariant
            i <= ps@.len(),
            applies_to_types(f),
            patterns_mapped(f, ps@.take(i as int), r@, 1),
        decreases ps.len() - i,
    {
        proof {
            assert(decreases_to!(*ps => ps@[i as int]));
        }
        let q = map_pattern(f, &ps[i]);
        let ghost before = r@;
        r.push(q);
        proof {
            assert(ps@.take(i + 1).drop_last() =~= ps@.take(i as int));
            assert(r@.drop_last() =~= before);
        }
        i = i + 1;
    }
    proof {
        assert(ps@.take(ps@.len() as int) =~= ps@);
    }
    r
}

/// Each named pattern of a list with its types mapped through `f`.
fn map_named_patterns<F: Fn(Type) -> Type>(f: &F, ps: &Vec<(Name, Pattern)>) -> (r: Vec<(Name, Pattern)>)
    requires
        applies_to_types(f),
    ensures
        named_patterns_mapped(f, ps@, r@, 1),
    decreases *ps,
{
    let mut r: Vec<(Name, Pattern)> = Vec::new();
    let mut i: usize = 0;
    while i < ps.len()
        invariant
            i <= ps@.len(),
            applies_to_types(f),
            named_patterns_mapped(f, ps@.take(i as int), r@, 1),
        decreases ps.len() - i,
    {
        proof {
            assert(decreases_to!(*ps => ps@[i as int]));
            assert(decreases_to!(ps@[i as int] => ps@[i as int].1));
        }
        let q = map_pattern(f, &ps[i].1);
        let ghost before = r@;
        r.push((copy_name(&ps[i].0), q));
        proof {
            assert(ps@.take(i + 1).drop_last() =~= ps@.take(i as int));
            assert(r@.drop_last() =~= before);
        }
        i = i + 1;
    }
    proof {
        assert(ps@.take(ps@.len() as int) =~= ps@);
    }
    r
}

impl Pattern {
    /// The pattern with each type it carries, its own and those of the
    /// patterns and type arguments within it, mapped through `f`.
    pub fn map_type<F: Fn(Type) -> Type>(self, f: &F) -> (r: Pattern)
        requires
            applies_to_types(f),
        ensures
            pattern_mapped(f, self, r, 1),
    {
        map_pattern(f, &self)
    }
}

impl PatternKind {
    /// The pattern of this form with the given type and origin.
    pub fn with(self, t: Type, info: Info) -> (p: Pattern)
        ensures
            p.t == t,
            p.info == info,
            *p.kind == self,
    {
        Pattern { t, info, kind: Rc::new(self) }
    }
}

/// `r` is the expression `e` with each type it carries mapped `n` times
/// through `f`, except that both operands of an array concatenation, and
/// all within them, are mapped twice as often.
pub open spec fn expr_mapped<F: Fn(Type) -> Type>(f: F, e: Expr, r: Expr, n: nat) -> bool
    decreases e,
{
    &&& r.info == e.info
    &&& type_mapped(f, e.t, r.t, n)
    &&& match (*e.kind, *r.kind) {
        (ExprKind::EConst(c), ExprKind::EConst(d)) => c == d,
        (ExprKind::EFun(ps, t, b), ExprKind::EFun(qs, u, c)) => patterns_mapped(f, ps@, qs@, n) && type_mapped(f, t, u, n)
            && block_mapped(f, b, c, n),
        (ExprKind::EFunCall(a, es), ExprKind::EFunCall(b, rs)) => expr_mapped(f, a, b, n) && exprs_mapped(f, es@, rs@, n),
        (ExprKind::EFunCallDirect(x, ts, es), ExprKind::EFunCallDirect(y, us, rs)) => x == y && types_mapped(f, ts@, us@, n)
            && exprs_mapped(f, es@, rs@, n),
        (ExprKind::EFunReturn(a), ExprKind::EFunReturn(b)) => expr_mapped(f, a, b, n),
        (ExprKind::ELoop(b), ExprKind::ELoop(c)) => block_mapped(f, b, c, n),
        (ExprKind::EBreak(a), ExprKind::EBreak(b)) => expr_mapped(f, a, b, n),
        (ExprKind::EContinue, ExprKind::EContinue) => true,
        (ExprKind::EMatch(a, xs), ExprKind::EMatch(b, ys)) => expr_mapped(f, a, b, n) && arms_mapped(f, xs@, ys@, n),
        (ExprKind::EArray(es), ExprKind::EArray(rs)) => exprs_mapped(f, es@, rs@, n),
        (ExprKind::EArrayConcat(a0, a1), ExprKind::EArrayConcat(b0, b1)) => expr_mapped(f, a0, b0, 2 * n)
            && expr_mapped(f, a1, b1, 2 * n),
        (ExprKind::EArrayAccess(a0, a1), ExprKind::EArrayAccess(b0, b1)) => expr_mapped(f, a0, b0, n) && expr_mapped(f, a1, b1, n),
        (ExprKind::EIfElse(a, b0, b1), ExprKind::EIfElse(c, d0, d1)) => expr_mapped(f, a, c, n) && block_mapped(f, b0, d0, n)
            && block_mapped(f, b1, d1, n),
        (ExprKind::ERecord(xs), ExprKind::ERecord(ys)) => named_exprs_mapped(f, xs@, ys@, n),
        (ExprKind::ERecordAccess(a, x), ExprKind::ERecordAccess(b, y)) => expr_mapped(f, a, b, n) && x == y,
        (ExprKind::ERecordConcat(a0, a1), ExprKind::ERecordConcat(b0, b1)) => expr_mapped(f, a0, b0, n) && expr_mapped(f, a1, b1, n),
        (ExprKind::EMut(a0, a1), ExprKind::EMut(b0, b1)) => expr_mapped(f, a0, b0, n) && expr_mapped(f, a1, b1, n),
        (ExprKind::EVar(x), ExprKind::EVar(y)) => x == y,
        (ExprKind::EDef(x, ts), ExprKind::EDef(y, us)) => x == y && types_mapped(f, ts@, us@, n),
        (ExprKind::EVariant(xs, ts, x, a), ExprKind::EVariant(ys, us, y, b)) => xs == ys && types_mapped(f, ts@, us@, n)
            && x == y && expr_mapped(f, a, b, n),
        (ExprKind::EDo(b), ExprKind::EDo(c)) => block_mapped(f, b, c, n),
        (ExprKind::ENoop(a), ExprKind::ENoop(b)) => expr_mapped(f, a, b, n),
        (ExprKind::ETuple(es), ExprKind::ETuple(rs)) => exprs_mapped(f, es@, rs@, n),
        (ExprKind::ETupleAccess(a, i), ExprKind::ETupleAccess(b, j)) => expr_mapped(f, a, b, n) && i == j,
        (ExprKind::EFor(p, a, b), ExprKind::EFor(q, c, d)) => pattern_mapped(f, p, q, n) && expr_mapped(f, a, c, n)
            && block_mapped(f, b, d, n),
        (ExprKind::EWhile(a, b), ExprKind::EWhile(c, d)) => expr_mapped(f, a, c, n) && block_mapped(f, b, d, n),
        (ExprKind::EError, ExprKind::EError) => true,
        _ => false,
    }
}

/// Each expression of `rs` is mapped from the expression of `es` at its
/// place.
pub open spec fn exprs_mapped<F: Fn(Type) -> Type>(f: F, es: Seq<Expr>, rs: Seq<Expr>, n: nat) -> bool
    decreases es,
{
    if es.len() == 0 {
        rs.len() == 0
    } else {
        &&& rs.len() == es.len()
        &&& exprs_mapped(f, es.drop_last(), rs.drop_last(), n)
        &&& expr_mapped(f, es.last(), rs.last(), n)
    }
}

/// Each field of `rs` has the name, and an expression mapped from the
/// expression, of the field of `es` at its place.
pub open spec fn named_exprs_mapped<F: Fn(Type) -> Type>(
    f: F,
    es: Seq<(Name, Expr)>,
    rs: Seq<(Name, Expr)>,
    n: nat,
) -> bool
    decreases es,
{
    if es.len() == 0 {
        rs.len() == 0
    } else {
        &&& rs.len() == es.len()
        &&& named_exprs_mapped(f, es.drop_last(), rs.drop_last(), n)
        &&& rs.last().0 == es.last().0
        &&& expr_mapped(f, es.last().1, rs.last().1, n)
    }
}

/// Each arm of `rs` has a pattern and a block mapped from those of the arm
/// of `xs` at its place.
pub open spec fn arms_mapped<F: Fn(Type) -> Type>(
    f: F,
    xs: Seq<(Pattern, Block)>,
    rs: Seq<(Pattern, Block)>,
    n: nat,
) -> bool
    decreases xs,
{
    if xs.len() == 0 {
        rs.len() == 0
    } else {
        &&& rs.len() == xs.len()
        &&& arms_mapped(f, xs.drop_last(), rs.drop_last(), n)
        &&& pattern_mapped(f, xs.last().0, rs.last().0, n)
        &&& block_mapped(f, xs.last().1, rs.last().1, n)
    }
}

/// `c` is the block `b` with its statements and value mapped.
pub open spec fn block_mapped<F: Fn(Type) -> Type>(f: F, b: Block, c: Block, n: nat) -> bool
    decreases b,
{
    &&& c.info == b.info
    &&& stmts_mapped(f, b.ss@, c.ss@, n)
    &&& expr_mapped(f, b.e, c.e, n)
}

/// Each statement of `rs` is mapped from the statement of `ss` at its
/// place.
pub open spec fn stmts_mapped<F: Fn(Type) -> Type>(f: F, ss: Seq<Stmt>, rs: Seq<Stmt>, n: nat) -> bool
    decreases ss,
{
    if ss.len() == 0 {
        rs.len() == 0
    } else {
        &&& rs.len() == ss.len()
        &&& stmts_mapped(f, ss.drop_last(), rs.drop_last(), n)
        &&& stmt_mapped(f, ss.last(), rs.last(), n)
    }
}

/// `r` is the statement `s` with each type it carries mapped.
pub open spec fn stmt_mapped<F: Fn(Type) -> Type>(f: F, s: Stmt, r: Stmt, n: nat) -> bool
    decreases s,
{
    &&& r.info == s.info
    &&& match (s.kind, r.kind) {
        (StmtKind::SVar(p, e), StmtKind::SVar(q, d)) => pattern_mapped(f, p, q, n) && expr_mapped(f, e, d, n),
        (StmtKind::SDef(m, x, gs, ps, t, b), StmtKind::SDef(m1, y, hs, qs, u, c)) => m@ == m1@ && x == y && gs@ == hs@
            && patterns_mapped(f, ps@, qs@, n) && type_mapped(f, t, u, n) && block_mapped(f, b, c, n),
        (StmtKind::SBif(m, x, gs, ts, t), StmtKind::SBif(m1, y, hs, us, u)) => m@ == m1@ && x == y && gs@ == hs@
            && types_mapped(f, ts@, us@, n) && type_mapped(f, t, u, n),
        (StmtKind::SEnum(m, x, gs, xts), StmtKind::SEnum(m1, y, hs, yts)) => m@ == m1@ && x == y && gs@ == hs@
            && named_types_mapped(f, xts@, yts@, n),
        (StmtKind::SBit(m, x, gs), StmtKind::SBit(m1, y, hs)) => m@ == m1@ && x == y && gs@ == hs@,
        (StmtKind::SNoop, StmtKind::SNoop) => true,
        _ => false,
    }
}

/// No node of the expression is one that mapping types does not take: a
/// variant access or check, or a loop or continuation of the SSA form.
pub open spec fn expr_mappable(e: Expr) -> bool
    decreases e,
{
    match *e.kind {
        ExprKind::EConst(_) => true,
        ExprKind::EFun(_, _, b) => block_mappable(b),
        ExprKind::EFunCall(a, es) => expr_mappable(a) && exprs_mappable(es@),
        ExprKind::EFunCallDirect(_, _, es) => exprs_mappable(es@),
        ExprKind::EFunReturn(a) => expr_mappable(a),
        ExprKind::ELoop(b) => block_mappable(b),
        ExprKind::EBreak(a) => expr_mappable(a),
        ExprKind::EContinue => true,
        ExprKind::EMatch(a, xs) => expr_mappable(a) && arms_mappable(xs@),
        ExprKind::EArray(es) => exprs_mappable(es@),
        ExprKind::EArrayConcat(a0, a1) => expr_mappable(a0) && expr_mappable(a1),
        ExprKind::EArrayAccess(a0, a1) => expr_mappable(a0) && expr_mappable(a1),
        ExprKind::EIfElse(a, b0, b1) => expr_mappable(a) && block_mappable(b0) && block_mappable(b1),
        ExprKind::ERecord(xs) => named_exprs_mappable(xs@),
        ExprKind::ERecordAccess(a, _) => expr_mappable(a),
        ExprKind::ERecordConcat(a0, a1) => expr_mappable(a0) && expr_mappable(a1),
        ExprKind::EMut(a0, a1) => expr_mappable(a0) && expr_mappable(a1),
        ExprKind::EVar(_) => true,
        ExprKind::EDef(_, _) => true,
        ExprKind::EVariant(_, _, _, a) => expr_mappable(a),
        ExprKind::EDo(b) => block_mappable(b),
        ExprKind::ENoop(a) => expr_mappable(a),
        ExprKind::ETuple(es) => exprs_mappable(es@),
        ExprKind::ETupleAccess(a, _) => expr_mappable(a),
        ExprKind::EFor(_, a, b) => expr_mappable(a) && block_mappable(b),
        ExprKind::EWhile(a, b) => expr_mappable(a) && block_mappable(b),
        ExprKind::EError => true,
        _ => false,
    }
}

/// Every expression of the list can be mapped.
pub open spec fn exprs_mappable(es: Seq<Expr>) -> bool
    decreases es,
{
    es.len() > 0 ==> exprs_mappable(es.drop_last()) && expr_mappable(es.last())
}

/// Every field expression of the list can be mapped.
pub open spec fn named_exprs_mappable(es: Seq<(Name, Expr)>) -> bool
    decreases es,
{
    es.len() > 0 ==> named_exprs_mappable(es.drop_last()) && expr_mappable(es.last().1)
}

/// Every arm's block can be mapped.
pub open spec fn arms_mappable(xs: Seq<(Pattern, Block)>) -> bool
    decreases xs,
{
    xs.len() > 0 ==> arms_mappable(xs.drop_last()) && block_mappable(xs.last().1)
}

/// The block's statements and value can be mapped.
pub open spec fn block_mappable(b: Block) -> bool
    decreases b,
{
    stmts_mappable(b.ss@) && expr_mappable(b.e)
}

/// Every statement of the list can be mapped.
pub open spec fn stmts_mappable(ss: Seq<Stmt>) -> bool
    decreases ss,
{
    ss.len() > 0 ==> stmts_mappable(ss.drop_last()) && stmt_mappable(ss.last())
}

/// The statement is one that mapping types takes, a group of recursive
/// definitions and the monomorphic forms excepted, and all within it can be
/// mapped.
pub open spec fn stmt_mappable(s: Stmt) -> bool
    decreases s,
{
    match s.kind {
        StmtKind::SVar(_, e) => expr_mappable(e),
        StmtKind::SDef(_, _, _, _, _, b) => block_mappable(b),
        StmtKind::SBif(_, _, _, _, _) => true,
        StmtKind::SEnum(_, _, _, _) => true,
        StmtKind::SBit(_, _, _) => true,
        StmtKind::SNoop => true,
        _ => false,
    }
}

/// Mapping `a` times and then `b` times maps `a + b` times.
pub proof fn lemma_type_compose<F: Fn(Type) -> Type>(f: F, t: Type, m: Type, r: Type, a: nat, b: nat)
    requires
        type_mapped(f, t, m, a),
        type_mapped(f, m, r, b),
    ensures
        type_mapped(f, t, r, a + b),
{
    let c1 = choose|c: Seq<Type>| type_chain(f, c, t, m, a);
    let c2 = choose|c: Seq<Type>| type_chain(f, c, m, r, b);
    let c = c1 + c2.skip(1);
    assert forall|i: int| 0 <= i < a + b implies #[trigger] chain_step(f, c, i) by {
        if i < a {
            assert(chain_step(f, c1, i));
            assert(c[i] == c1[i] && c[i + 1] == c1[i + 1]);
        } else {
            assert(chain_step(f, c2, i - a));
            assert(c[i] == c2[i - a]);
            assert(c[i + 1] == c2[i - a + 1]);
        }
    }
    assert(type_chain(f, c, t, r, a + b));
}

/// Mapping a list of types `a` times and then `b` times maps it `a + b`
/// times.
pub proof fn lemma_types_compose<F: Fn(Type) -> Type>(f: F, ts: Seq<Type>, ms: Seq<Type>, rs: Seq<Type>, a: nat, b: nat)
    requires
        types_mapped(f, ts, ms, a),
        types_mapped(f, ms, rs, b),
    ensures
        types_mapped(f, ts, rs, a + b),
{
    assert forall|i: int| 0 <= i < ts.len() implies #[trigger] type_mapped(f, ts[i], rs[i], a + b) by {
        lemma_type_compose(f, ts[i], ms[i], rs[i], a, b);
    }
}

/// Mapping a list of named types `a` times and then `b` times maps it
/// `a + b` times.
pub proof fn lemma_named_types_compose<F: Fn(Type) -> Type>(
    f: F,
    ts: Seq<(Name, Type)>,
    ms: Seq<(Name, Type)>,
    rs: Seq<(Name, Type)>,
    a: nat,
    b: nat,
)
    requires
        named_types_mapped(f, ts, ms, a),
        named_types_mapped(f, ms, rs, b),
    ensures
        named_types_mapped(f, ts, rs, a + b),
{
    assert forall|i: int| 0 <= i < ts.len() implies #[trigger] rs[i].0 == ts[i].0 by {
        assert(ms[i].0 == ts[i].0);
        assert(rs[i].0 == ms[i].0);
    }
    assert forall|i: int| 0 <= i < ts.len() implies #[trigger] type_mapped(f, ts[i].1, rs[i].1, a + b) by {
        assert(type_mapped(f, ts[i].1, ms[i].1, a));
        assert(type_mapped(f, ms[i].1, rs[i].1, b));
        lemma_type_compose(f, ts[i].1, ms[i].1, rs[i].1, a, b);
    }
}

/// Mapping a pattern `a` times and then `b` times maps it `a + b` times.
pub proof fn lemma_pattern_compose<F: Fn(Type) -> Type>(f: F, p: Pattern, m: Pattern, r: Pattern, a: nat, b: nat)
    requires
        pattern_mapped(f, p, m, a),
        pattern_mapped(f, m, r, b),
    ensures
        pattern_mapped(f, p, r, a + b),
    decreases p,
{
    lemma_type_compose(f, p.t, m.t, r.t, a, b);
    match (&*p.kind, &*m.kind, &*r.kind) {
        (PatternKind::POr(p0, p1), PatternKind::POr(m0, m1), PatternKind::POr(r0, r1)) => {
            lemma_pattern_compose(f, *p0, *m0, *r0, a, b);
            lemma_pattern_compose(f, *p1, *m1, *r1, a, b);
        },
        (PatternKind::PNoop(p0), PatternKind::PNoop(m0), PatternKind::PNoop(r0)) => {
            lemma_pattern_compose(f, *p0, *m0, *r0, a, b);
        },
        (PatternKind::PRecord(ps), PatternKind::PRecord(ms), PatternKind::PRecord(rs)) => {
            lemma_named_patterns_compose(f, ps@, ms@, rs@, a, b);
        },
        (PatternKind::PRecordConcat(p0, p1), PatternKind::PRecordConcat(m0, m1), PatternKind::PRecordConcat(r0, r1)) => {
            lemma_pattern_compose(f, *p0, *m0, *r0, a, b);
            lemma_pattern_compose(f, *p1, *m1, *r1, a, b);
        },
        (PatternKind::PArray(ps), PatternKind::PArray(ms), PatternKind::PArray(rs)) => {
            lemma_patterns_compose(f, ps@, ms@, rs@, a, b);
        },
        (PatternKind::PArrayConcat(p0, p1), PatternKind::PArrayConcat(m0, m1), PatternKind::PArrayConcat(r0, r1)) => {
            lemma_pattern_compose(f, *p0, *m0, *r0, a, b);
            lemma_pattern_compose(f, *p1, *m1, *r1, a, b);
        },
        (PatternKind::PTuple(ps), PatternKind::PTuple(ms), PatternKind::PTuple(rs)) => {
            lemma_patterns_compose(f, ps@, ms@, rs@, a, b);
        },
        (PatternKind::PVariant(_, ts, _, p0), PatternKind::PVariant(_, ms, _, m0), PatternKind::PVariant(_, rs, _, r0)) => {
            lemma_types_compose(f, ts@, ms@, rs@, a, b);
            lemma_pattern_compose(f, *p0, *m0, *r0, a, b);
        },
        _ => {},
    }
}

/// Mapping a list of patterns `a` times and then `b` times maps it `a + b`
/// times.
pub proof fn lemma_patterns_compose<F: Fn(Type) -> Type>(
    f: F,
    ps: Seq<Pattern>,
    ms: Seq<Pattern>,
    rs: Seq<Pattern>,
    a: nat,
    b: nat,
)
    requires
        patterns_mapped(f, ps, ms, a),
        patterns_mapped(f, ms, rs, b),
    ensures
        patterns_mapped(f, ps, rs, a + b),
    decreases ps,
{
    if ps.len() > 0 {
        lemma_patterns_compose(f, ps.drop_last(), ms.drop_last(), rs.drop_last(), a, b);
        lemma_pattern_compose(f, ps.last(), ms.last(), rs.last(), a, b);
    }
}

/// Mapping a list of named patterns `a` times and then `b` times maps it
/// `a + b` times.
pub proof fn lemma_named_patterns_compose<F: Fn(Type) -> Type>(
    f: F,
    ps: Seq<(Name, Pattern)>,
    ms: Seq<(Name, Pattern)>,
    rs: Seq<(Name, Pattern)>,
    a: nat,
    b: nat,
)
    requires
        named_patterns_mapped(f, ps, ms, a),
        named_patterns_mapped(f, ms, rs, b),
    ensures
        named_patterns_mapped(f, ps, rs, a + b),
    decreases ps,
{
    if ps.len() > 0 {
        lemma_named_patterns_compose(f, ps.drop_last(), ms.drop_last(), rs.drop_last(), a, b);
        lemma_pattern_compose(f, ps.last().1, ms.last().1, rs.last().1, a, b);
    }
}

/// Mapping an expression `a` times and then `b` times maps it `a + b`
/// times.
pub proof fn lemma_expr_compose<F: Fn(Type) -> Type>(f: F, e: Expr, m: Expr, r: Expr, a: nat, b: nat)
    requires
        expr_mapped(f, e, m, a),
        expr_mapped(f, m, r, b),
    ensures
        expr_mapped(f, e, r, a + b),
    decreases e,
{
    lemma_type_compose(f, e.t, m.t, r.t, a, b);
    match (&*e.kind, &*m.kind, &*r.kind) {
        (ExprKind::EFun(ps, t, b0), ExprKind::EFun(qs, u, b1), ExprKind::EFun(ws, v, b2)) => {
            lemma_patterns_compose(f, ps@, qs@, ws@, a, b);
            lemma_type_compose(f, *t, *u, *v, a, b);
            lemma_block_compose(f, *b0, *b1, *b2, a, b);
        },
        (ExprKind::EFunCall(e0, es), ExprKind::EFunCall(m0, ms), ExprKind::EFunCall(r0, rs)) => {
            lemma_expr_compose(f, *e0, *m0, *r0, a, b);
            lemma_exprs_compose(f, es@, ms@, rs@, a, b);
        },
        (ExprKind::EFunCallDirect(_, ts, es), ExprKind::EFunCallDirect(_, us, ms), ExprKind::EFunCallDirect(_, vs, rs)) => {
            lemma_types_compose(f, ts@, us@, vs@, a, b);
            lemma_exprs_compose(f, es@, ms@, rs@, a, b);
        },
        (ExprKind::EFunReturn(e0), ExprKind::EFunReturn(m0), ExprKind::EFunReturn(r0)) => {
            lemma_expr_compose(f, *e0, *m0, *r0, a, b);
        },
        (ExprKind::ELoop(b0), ExprKind::ELoop(b1), ExprKind::ELoop(b2)) => {
            lemma_block_compose(f, *b0, *b1, *b2, a, b);
        },
        (ExprKind::EBreak(e0), ExprKind::EBreak(m0), ExprKind::EBreak(r0)) => {
            lemma_expr_compose(f, *e0, *m0, *r0, a, b);
        },
        (ExprKind::EMatch(e0, xs), ExprKind::EMatch(m0, ys), ExprKind::EMatch(r0, zs)) => {
            lemma_expr_compose(f, *e0, *m0, *r0, a, b);
            lemma_arms_compose(f, xs@, ys@, zs@, a, b);
        },
        (ExprKind::EArray(es), ExprKind::EArray(ms), ExprKind::EArray(rs)) => {
            lemma_exprs_compose(f, es@, ms@, rs@, a, b);
        },
        (ExprKind::EArrayConcat(e0, e1), ExprKind::EArrayConcat(m0, m1), ExprKind::EArrayConcat(r0, r1)) => {
            lemma_expr_compose(f, *e0, *m0, *r0, 2 * a, 2 * b);
            lemma_expr_compose(f, *e1, *m1, *r1, 2 * a, 2 * b);
            assert(2 * a + 2 * b == 2 * (a + b));
        },
        (ExprKind::EArrayAccess(e0, e1), ExprKind::EArrayAccess(m0, m1), ExprKind::EArrayAccess(r0, r1)) => {
            lemma_expr_compose(f, *e0, *m0, *r0, a, b);
            lemma_expr_compose(f, *e1, *m1, *r1, a, b);
        },
        (ExprKind::EIfElse(e0, b0, c0), ExprKind::EIfElse(m0, b1, c1), ExprKind::EIfElse(r0, b2, c2)) => {
            lemma_expr_compose(f, *e0, *m0, *r0, a, b);
            lemma_block_compose(f, *b0, *b1, *b2, a, b);
            lemma_block_compose(f, *c0, *c1, *c2, a, b);
        },
        (ExprKind::ERecord(xs), ExprKind::ERecord(ys), ExprKind::ERecord(zs)) => {
            lemma_named_exprs_compose(f, xs@, ys@, zs@, a, b);
        },
        (ExprKind::ERecordAccess(e0, _), ExprKind::ERecordAccess(m0, _), ExprKind::ERecordAccess(r0, _)) => {
            lemma_expr_compose(f, *e0, *m0, *r0, a, b);
        },
        (ExprKind::ERecordConcat(e0, e1), ExprKind::ERecordConcat(m0, m1), ExprKind::ERecordConcat(r0, r1)) => {
            lemma_expr_compose(f, *e0, *m0, *r0, a, b);
            lemma_expr_compose(f, *e1, *m1, *r1, a, b);
        },
        (ExprKind::EMut(e0, e1), ExprKind::EMut(m0, m1), ExprKind::EMut(r0, r1)) => {
            lemma_expr_compose(f, *e0, *m0, *r0, a, b);
            lemma_expr_compose(f, *e1, *m1, *r1, a, b);
        },
        (ExprKind::EDef(_, ts), ExprKind::EDef(_, us), ExprKind::EDef(_, vs)) => {
            lemma_types_compose(f, ts@, us@, vs@, a, b);
        },
        (ExprKind::EVariant(_, ts, _, e0), ExprKind::EVariant(_, us, _, m0), ExprKind::EVariant(_, vs, _, r0)) => {
            lemma_types_compose(f, ts@, us@, vs@, a, b);
            lemma_expr_compose(f, *e0, *m0, *r0, a, b);
        },
        (ExprKind::EDo(b0), ExprKind::EDo(b1), ExprKind::EDo(b2)) => {
            lemma_block_compose(f, *b0, *b1, *b2, a, b);
        },
        (ExprKind::ENoop(e0), ExprKind::ENoop(m0), ExprKind::ENoop(r0)) => {
            lemma_expr_compose(f, *e0, *m0, *r0, a, b);
        },
        (ExprKind::ETuple(es), ExprKind::ETuple(ms), ExprKind::ETuple(rs)) => {
            lemma_exprs_compose(f, es@, ms@, rs@, a, b);
        },
        (ExprKind::ETupleAccess(e0, _), ExprKind::ETupleAccess(m0, _), ExprKind::ETupleAccess(r0, _)) => {
            lemma_expr_compose(f, *e0, *m0, *r0, a, b);
        },
        (ExprKind::EFor(p0, e0, b0), ExprKind::EFor(p1, m0, b1), ExprKind::EFor(p2, r0, b2)) => {
            lemma_pattern_compose(f, *p0, *p1, *p2, a, b);
            lemma_expr_compose(f, *e0, *m0, *r0, a, b);
            lemma_block_compose(f, *b0, *b1, *b2, a, b);
        },
        (ExprKind::EWhile(e0, b0), ExprKind::EWhile(m0, b1), ExprKind::EWhile(r0, b2)) => {
            lemma_expr_compose(f, *e0, *m0, *r0, a, b);
            lemma_block_compose(f, *b0, *b1, *b2, a, b);
        },
        _ => {},
    }
}

/// Mapping a list of expressions `a` times and then `b` times maps it
/// `a + b` times.
pub proof fn lemma_exprs_compose<F: Fn(Type) -> Type>(f: F, es: Seq<Expr>, ms: Seq<Expr>, rs: Seq<Expr>, a: nat, b: nat)
    requires
        exprs_mapped(f, es, ms, a),
        exprs_mapped(f, ms, rs, b),
    ensures
        exprs_mapped(f, es, rs, a + b),
    decreases es,
{
    if es.len() > 0 {
        lemma_exprs_compose(f, es.drop_last(), ms.drop_last(), rs.drop_last(), a, b);
        lemma_expr_compose(f, es.last(), ms.last(), rs.last(), a, b);
    }
}

/// Mapping a list of fields `a` times and then `b` times maps it `a + b`
/// times.
pub proof fn lemma_named_exprs_compose<F: Fn(Type) -> Type>(
    f: F,
    es: Seq<(Name, Expr)>,
    ms: Seq<(Name, Expr)>,
    rs: Seq<(Name, Expr)>,
    a: nat,
    b: nat,
)
    requires
        named_exprs_mapped(f, es, ms, a),
        named_exprs_mapped(f, ms, rs, b),
    ensures
        named_exprs_mapped(f, es, rs, a + b),
    decreases es,
{
    if es.len() > 0 {
        lemma_named_exprs_compose(f, es.drop_last(), ms.drop_last(), rs.drop_last(), a, b);
        lemma_expr_compose(f, es.last().1, ms.last().1, rs.last().1, a, b);
    }
}

/// Mapping a list of arms `a` times and then `b` times maps it `a + b`
/// times.
pub proof fn lemma_arms_compose<F: Fn(Type) -> Type>(
    f: F,
    xs: Seq<(Pattern, Block)>,
    ms: Seq<(Pattern, Block)>,
    rs: Seq<(Pattern, Block)>,
    a: nat,
    b: nat,
)
    requires
        arms_mapped(f, xs, ms, a),
        arms_mapped(f, ms, rs, b),
    ensures
        arms_mapped(f, xs, rs, a + b),
    decreases xs,
{
    if xs.len() > 0 {
        lemma_arms_compose(f, xs.drop_last(), ms.drop_last(), rs.drop_last(), a, b);
        lemma_pattern_compose(f, xs.last().0, ms.last().0, rs.last().0, a, b);
        lemma_block_compose(f, xs.last().1, ms.last().1, rs.last().1, a, b);
    }
}

/// Mapping a block `a` times and then `b` times maps it `a + b` times.
pub proof fn lemma_block_compose<F: Fn(Type) -> Type>(f: F, x: Block, m: Block, r: Block, a: nat, b: nat)
    requires
        block_mapped(f, x, m, a),
        block_mapped(f, m, r, b),
    ensures
        block_mapped(f, x, r, a + b),
    decreases x,
{
    lemma_stmts_compose(f, x.ss@, m.ss@, r.ss@, a, b);
    lemma_expr_compose(f, x.e, m.e, r.e, a, b);
}

/// Mapping a list of statements `a` times and then `b` times maps it
/// `a + b` times.
pub proof fn lemma_stmts_compose<F: Fn(Type) -> Type>(f: F, ss: Seq<Stmt>, ms: Seq<Stmt>, rs: Seq<Stmt>, a: nat, b: nat)
    requires
        stmts_mapped(f, ss, ms, a),
        stmts_mapped(f, ms, rs, b),
    ensures
        stmts_mapped(f, ss, rs, a + b),
    decreases ss,
{
    if ss.len() > 0 {
        lemma_stmts_compose(f, ss.drop_last(), ms.drop_last(), rs.drop_last(), a, b);
        lemma_stmt_compose(f, ss.last(), ms.last(), rs.last(), a, b);
    }
}

/// Mapping a statement `a` times and then `b` times maps it `a + b` times.
pub proof fn lemma_stmt_compose<F: Fn(Type) -> Type>(f: F, s: Stmt, m: Stmt, r: Stmt, a: nat, b: nat)
    requires
        stmt_mapped(f, s, m, a),
        stmt_mapped(f, m, r, b),
    ensures
        stmt_mapped(f, s, r, a + b),
    decreases s,
{
    match (&s.kind, &m.kind, &r.kind) {
        (StmtKind::SVar(p0, e0), StmtKind::SVar(p1, m0), StmtKind::SVar(p2, r0)) => {
            lemma_pattern_compose(f, *p0, *p1, *p2, a, b);
            lemma_expr_compose(f, *e0, *m0, *r0, a, b);
        },
        (StmtKind::SDef(_, _, _, ps, t, b0), StmtKind::SDef(_, _, _, qs, u, b1), StmtKind::SDef(_, _, _, ws, v, b2)) => {
            lemma_patterns_compose(f, ps@, qs@, ws@, a, b);
            lemma_type_compose(f, *t, *u, *v, a, b);
            lemma_block_compose(f, *b0, *b1, *b2, a, b);
        },
        (StmtKind::SBif(_, _, _, ts, t), StmtKind::SBif(_, _, _, us, u), StmtKind::SBif(_, _, _, vs, v)) => {
            lemma_types_compose(f, ts@, us@, vs@, a, b);
            lemma_type_compose(f, *t, *u, *v, a, b);
        },
        (StmtKind::SEnum(_, _, _, xts), StmtKind::SEnum(_, _, _, yts), StmtKind::SEnum(_, _, _, zts)) => {
            lemma_named_types_compose(f, xts@, yts@, zts@, a, b);
        },
        _ => {},
    }
}

/// The number of expression, block and statement nodes of an expression.
pub open spec fn expr_size(e: Expr) -> nat
    decreases e,
{
    1 + match *e.kind {
        ExprKind::EFun(_, _, b) => block_size(b),
        ExprKind::EFunCall(a, es) => expr_size(a) + exprs_size(es@),
        ExprKind::EFunCallDirect(_, _, es) => exprs_size(es@),
        ExprKind::EFunReturn(a) => expr_size(a),
        ExprKind::ELoop(b) => block_size(b),
        ExprKind::EBreak(a) => expr_size(a),
        ExprKind::EMatch(a, xs) => expr_size(a) + arms_size(xs@),
        ExprKind::EArray(es) => exprs_size(es@),
        ExprKind::EArrayConcat(a0, a1) => expr_size(a0) + expr_size(a1),
        ExprKind::EArrayAccess(a0, a1) => expr_size(a0) + expr_size(a1),
        ExprKind::EIfElse(a, b0, b1) => expr_size(a) + block_size(b0) + block_size(b1),
        ExprKind::ERecord(xs) => named_exprs_size(xs@),
        ExprKind::ERecordAccess(a, _) => expr_size(a),
        ExprKind::ERecordConcat(a0, a1) => expr_size(a0) + expr_size(a1),
        ExprKind::EMut(a0, a1) => expr_size(a0) + expr_size(a1),
        ExprKind::EVariant(_, _, _, a) => expr_size(a),
        ExprKind::EDo(b) => block_size(b),
        ExprKind::ENoop(a) => expr_size(a),
        ExprKind::ETuple(es) => exprs_size(es@),
        ExprKind::ETupleAccess(a, _) => expr_size(a),
        ExprKind::EFor(_, a, b) => expr_size(a) + block_size(b),
        ExprKind::EWhile(a, b) => expr_size(a) + block_size(b),
        _ => 0,
    }
}

/// The total size of a list of expressions.
pub open spec fn exprs_size(es: Seq<Expr>) -> nat
    decreases es,
{
    if es.len() == 0 {
        0
    } else {
        exprs_size(es.drop_last()) + expr_size(es.last())
    }
}

/// The total size of the expressions of a list of fields.
pub open spec fn named_exprs_size(es: Seq<(Name, Expr)>) -> nat
    decreases es,
{
    if es.len() == 0 {
        0
    } else {
        named_exprs_size(es.drop_last()) + expr_size(es.last().1)
    }
}

/// The total size of the blocks of a list of arms.
pub open spec fn arms_size(xs: Seq<(Pattern, Block)>) -> nat
    decreases xs,
{
    if xs.len() == 0 {
        0
    } else {
        arms_size(xs.drop_last()) + block_size(xs.last().1)
    }
}

/// The number of expression, block and statement nodes of a block.
pub open spec fn block_size(b: Block) -> nat
    decreases b,
{
    1 + stmts_size(b.ss@) + expr_size(b.e)
}

/// The total size of a list of statements.
pub open spec fn stmts_size(ss: Seq<Stmt>) -> nat
    decreases ss,
{
    if ss.len() == 0 {
        0
    } else {
        stmts_size(ss.drop_last()) + stmt_size(ss.last())
    }
}

/// The number of expression, block and statement nodes of a statement.
pub open spec fn stmt_size(s: Stmt) -> nat
    decreases s,
{
    1 + match s.kind {
        StmtKind::SVar(_, e) => expr_size(e),
        StmtKind::SDef(_, _, _, _, _, b) => block_size(b),
        _ => 0,
    }
}

/// An expression of a list is no larger than the list.
proof fn lemma_exprs_size_elem(es: Seq<Expr>, i: int)
    requires
        0 <= i < es.len(),
    ensures
        expr_size(es[i]) <= exprs_size(es),
    decreases es.len(),
{
    if i < es.len() - 1 {
        lemma_exprs_size_elem(es.drop_last(), i);
    }
}

/// A field's expression is no larger than the list.
proof fn lemma_named_exprs_size_elem(es: Seq<(Name, Expr)>, i: int)
    requires
        0 <= i < es.len(),
    ensures
        expr_size(es[i].1) <= named_exprs_size(es),
    decreases es.len(),
{
    if i < es.len() - 1 {
        lemma_named_exprs_size_elem(es.drop_last(), i);
    }
}

/// An arm's block is no larger than the list.
proof fn lemma_arms_size_elem(xs: Seq<(Pattern, Block)>, i: int)
    requires
        0 <= i < xs.len(),
    ensures
        block_size(xs[i].1) <= arms_size(xs),
    decreases xs.len(),
{
    if i < xs.len() - 1 {
        lemma_arms_size_elem(xs.drop_last(), i);
    }
}

/// A statement of a list is no larger than the list.
proof fn lemma_stmts_size_elem(ss: Seq<Stmt>, i: int)
    requires
        0 <= i < ss.len(),
    ensures
        stmt_size(ss[i]) <= stmts_size(ss),
    decreases ss.len(),
{
    if i < ss.len() - 1 {
        lemma_stmts_size_elem(ss.drop_last(), i);
    }
}

/// The elements of a list are mappable when the list is.
proof fn lemma_exprs_mappable_elem(es: Seq<Expr>, i: int)
    requires
        0 <= i < es.len(),
        exprs_mappable(es),
    ensures
        expr_mappable(es[i]),
    decreases es.len(),
{
    if i < es.len() - 1 {
        lemma_exprs_mappable_elem(es.drop_last(), i);
    }
}

/// The field expressions of a list are mappable when the list is.
proof fn lemma_named_exprs_mappable_elem(es: Seq<(Name, Expr)>, i: int)
    requires
        0 <= i < es.len(),
        named_exprs_mappable(es),
    ensures
        expr_mappable(es[i].1),
    decreases es.len(),
{
    if i < es.len() - 1 {
        lemma_named_exprs_mappable_elem(es.drop_last(), i);
    }
}

/// The arms' blocks are mappable when the list is.
proof fn lemma_arms_mappable_elem(xs: Seq<(Pattern, Block)>, i: int)
    requires
        0 <= i < xs.len(),
        arms_mappable(xs),
    ensures
        block_mappable(xs[i].1),
    decreases xs.len(),
{
    if i < xs.len() - 1 {
        lemma_arms_mappable_elem(xs.drop_last(), i);
    }
}

/// The statements of a list are mappable when the list is.
proof fn lemma_stmts_mappable_elem(ss: Seq<Stmt>, i: int)
    requires
        0 <= i < ss.len(),
        stmts_mappable(ss),
    ensures
        stmt_mappable(ss[i]),
    decreases ss.len(),
{
    if i < ss.len() - 1 {
        lemma_stmts_mappable_elem(ss.drop_last(), i);
    }
}

/// The expression with each type it carries mapped through `f`, the
/// operands of an array concatenation twice.
fn map_expr<F: Fn(Type) -> Type>(f: &F, e: &Expr) -> (r: Expr)
    requires
        applies_to_types(f),
        expr_mappable(*e),
    ensures
        expr_mapped(f, *e, r, 1),
        expr_mappable(r),
        expr_size(r) == expr_size(*e),
    decreases expr_size(*e), 0nat,
{
    let t = apply_once(f, copy_type(&e.t));
    let kind = match &*e.kind {
        ExprKind::EConst(c) => ExprKind::EConst(c.copy()),
        ExprKind::EFun(ps, t0, b) => {
            let qs = map_patterns(f, ps);
            let u = apply_once(f, copy_type(t0));
            ExprKind::EFun(qs, u, map_block(f, b))
        },
        ExprKind::EFunCall(a, es) => {
            let b = map_expr(f, a);
            ExprKind::EFunCall(b, map_exprs(f, es))
        },
        ExprKind::EFunCallDirect(x, ts, es) => {
            let us = map_types(f, ts);
            ExprKind::EFunCallDirect(copy_name(x), us, map_exprs(f, es))
        },
        ExprKind::EFunReturn(a) => ExprKind::EFunReturn(map_expr(f, a)),
        ExprKind::ELoop(b) => ExprKind::ELoop(map_block(f, b)),
        ExprKind::EBreak(a) => ExprKind::EBreak(map_expr(f, a)),
        ExprKind::EContinue => ExprKind::EContinue,
        ExprKind::EMatch(a, xs) => {
            let b = map_expr(f, a);
            ExprKind::EMatch(b, map_arms(f, xs))
        },
        ExprKind::EArray(es) => ExprKind::EArray(map_exprs(f, es)),
        ExprKind::EArrayConcat(a0, a1) => {
            let m0 = map_expr(f, a0);
            let m1 = map_expr(f, a1);
            let b0 = map_expr(f, &m0);
            let b1 = map_expr(f, &m1);
            proof {
                lemma_expr_compose(f, *a0, m0, b0, 1, 1);
                lemma_expr_compose(f, *a1, m1, b1, 1, 1);
            }
            ExprKind::EArrayConcat(b0, b1)
        },
        ExprKind::EArrayAccess(a0, a1) => {
            let b0 = map_expr(f, a0);
            ExprKind::EArrayAccess(b0, map_expr(f, a1))
        },
        ExprKind::EIfElse(a, b0, b1) => {
            let c = map_expr(f, a);
            let d0 = map_block(f, b0);
            ExprKind::EIfElse(c, d0, map_block(f, b1))
        },
        ExprKind::ERecord(xs) => ExprKind::ERecord(map_named_exprs(f, xs)),
        ExprKind::ERecordAccess(a, x) => ExprKind::ERecordAccess(map_expr(f, a), copy_name(x)),
        ExprKind::ERecordConcat(a0, a1) => {
            let b0 = map_expr(f, a0);
            ExprKind::ERecordConcat(b0, map_expr(f, a1))
        },
        ExprKind::EMut(a0, a1) => {
            let b0 = map_expr(f, a0);
            ExprKind::EMut(b0, map_expr(f, a1))
        },
        ExprKind::EVar(x) => ExprKind::EVar(copy_name(x)),
        ExprKind::EDef(x, ts) => ExprKind::EDef(copy_name(x), map_types(f, ts)),
        ExprKind::EVariant(xs, ts, x, a) => {
            let b = map_expr(f, a);
            let us = map_types(f, ts);
            ExprKind::EVariant(copy_name(xs), us, copy_name(x), b)
        },
        ExprKind::EDo(b) => ExprKind::EDo(map_block(f, b)),
        ExprKind::ENoop(a) => ExprKind::ENoop(map_expr(f, a)),
        ExprKind::ETuple(es) => ExprKind::ETuple(map_exprs(f, es)),
        ExprKind::ETupleAccess(a, i) => ExprKind::ETupleAccess(map_expr(f, a), *i),
        ExprKind::EFor(p, a, b) => {
            let q = map_pattern(f, p);
            let c = map_expr(f, a);
            ExprKind::EFor(q, c, map_block(f, b))
        },
        ExprKind::EWhile(a, b) => {
            let c = map_expr(f, a);
            ExprKind::EWhile(c, map_block(f, b))
        },
        ExprKind::EError => ExprKind::EError,
        _ => {
            proof {
                assert(false);
            }
            ExprKind::EError
        },
    };
    Expr { info: e.info, t, kind: Rc::new(kind) }
}

/// Each expression of a list with its types mapped through `f`.
fn map_exprs<F: Fn(Type) -> Type>(f: &F, es: &Vec<Expr>) -> (r: Vec<Expr>)
    requires
        applies_to_types(f),
        exprs_mappable(es@),
    ensures
        exprs_mapped(f, es@, r@, 1),
        exprs_mappable(r@),
        exprs_size(r@) == exprs_size(es@),
    decreases exprs_size(es@), 1nat,
{
    let mut r: Vec<Expr> = Vec::new();
    let mut i: usize = 0;
    while i < es.len()
        invariant
            i <= es@.len(),
            applies_to_types(f),
            exprs_mappable(es@),
            exprs_mapped(f, es@.take(i as int), r@, 1),
            exprs_mappable(r@),
            exprs_size(r@) == exprs_size(es@.take(i as int)),
        decreases es.len() - i,
    {
        proof {
            lemma_exprs_size_elem(es@, i as int);
            lemma_exprs_mappable_elem(es@, i as int);
        }
        let q = map_expr(f, &es[i]);
        let ghost before = r@;
        r.push(q);
        proof {
            assert(es@.take(i + 1).drop_last() =~= es@.take(i as int));
            assert(r@.drop_last() =~= before);
        }
        i = i + 1;
    }
    proof {
        assert(es@.take(es@.len() as int) =~= es@);
    }
    r
}

/// Each field of a list with its expression's types mapped through `f`.
fn map_named_exprs<F: Fn(Type) -> Type>(f: &F, es: &Vec<(Name, Expr)>) -> (r: Vec<(Name, Expr)>)
    requires
        applies_to_types(f),
        named_exprs_mappable(es@),
    ensures
        named_exprs_mapped(f, es@, r@, 1),
        named_exprs_mappable(r@),
        named_exprs_size(r@) == named_exprs_size(es@),
    decreases named_exprs_size(es@), 1nat,
{
    let mut r: Vec<(Name, Expr)> = Vec::new();
    let mut i: usize = 0;
    while i < es.len()
        invariant
            i <= es@.len(),
            applies_to_types(f),
            named_exprs_mappable(es@),
            named_exprs_mapped(f, es@.take(i as int), r@, 1),
            named_exprs_mappable(r@),
            named_exprs_size(r@) == named_exprs_size(es@.take(i as int)),
        decreases es.len() - i,
    {
        proof {
            lemma_named_exprs_size_elem(es@, i as int);
            lemma_named_exprs_mappable_elem(es@, i as int);
        }
        let q = map_expr(f, &es[i].1);
        let ghost before = r@;
        r.push((copy_name(&es[i].0), q));
        proof {
            assert(es@.take(i + 1).drop_last() =~= es@.take(i as int));
            assert(r@.drop_last() =~= before);
        }
        i = i + 1;
    }
    proof {
        assert(es@.take(es@.len() as int) =~= es@);
    }
    r
}

/// Each arm of a list with its pattern's and block's types mapped
/// through `f`.
fn map_arms<F: Fn(Type) -> Type>(f: &F, xs: &Vec<(Pattern, Block)>) -> (r: Vec<(Pattern, Block)>)
    requires
        applies_to_types(f),
        arms_mappable(xs@),
    ensures
        arms_mapped(f, xs@, r@, 1),
        arms_mappable(r@),
        arms_size(r@) == arms_size(xs@),
    decreases arms_size(xs@), 1nat,
{
    let mut r: Vec<(Pattern, Block)> = Vec::new();
    let mut i: usize = 0;
    while i < xs.len()
        invariant
            i <= xs@.len(),
            applies_to_types(f),
            arms_mappable(xs@),
            arms_mapped(f, xs@.take(i as int), r@, 1),
            arms_mappable(r@),
            arms_size(r@) == arms_size(xs@.take(i as int)),
        decreases xs.len() - i,
    {
        proof {
            lemma_arms_size_elem(xs@, i as int);
            lemma_arms_mappable_elem(xs@, i as int);
        }
        let q = map_pattern(f, &xs[i].0);
        let c = map_block(f, &xs[i].1);
        let ghost before = r@;
        r.push((q, c));
        proof {
            assert(xs@.take(i + 1).drop_last() =~= xs@.take(i as int));
            assert(r@.drop_last() =~= before);
        }
        i = i + 1;
    }
    proof {
        assert(xs@.take(xs@.len() as int) =~= xs@);
    }
    r
}

/// The block with its statements' and value's types mapped through `f`.
fn map_block<F: Fn(Type) -> Type>(f: &F, b: &Block) -> (r: Block)
    requires
        applies_to_types(f),
        block_mappable(*b),
    ensures
        block_mapped(f, *b, r, 1),
        block_mappable(r),
        block_size(r) == block_size(*b),
    decreases block_size(*b), 0nat,
{
    let ss = map_stmts(f, &b.ss);
    let e = map_expr(f, &b.e);
    Block { ss, e, info: b.info }
}

/// Each statement of a list with its types mapped through `f`.
fn map_stmts<F: Fn(Type) -> Type>(f: &F, ss: &Vec<Stmt>) -> (r: Vec<Stmt>)
    requires
        applies_to_types(f),
        stmts_mappable(ss@),
    ensures
        stmts_mapped(f, ss@, r@, 1),
        stmts_mappable(r@),
        stmts_size(r@) == stmts_size(ss@),
    decreases stmts_size(ss@), 1nat,
{
    let mut r: Vec<Stmt> = Vec::new();
    let mut i: usize = 0;
    while i < ss.len()
        invariant
            i <= ss@.len(),
            applies_to_types(f),
            stmts_mappable(ss@),
            stmts_mapped(f, ss@.take(i as int), r@, 1),
            stmts_mappable(r@),
            stmts_size(r@) == stmts_size(ss@.take(i as int)),
        decreases ss.len() - i,
    {
        proof {
            lemma_stmts_size_elem(ss@, i as int);
            lemma_stmts_mappable_elem(ss@, i as int);
        }
        let q = map_stmt(f, &ss[i]);
        let ghost before = r@;
        r.push(q);
        proof {
            assert(ss@.take(i + 1).drop_last() =~= ss@.take(i as int));
            assert(r@.drop_last() =~= before);
        }
        i = i + 1;
    }
    proof {
        assert(ss@.take(ss@.len() as int) =~= ss@);
    }
    r
}

/// The statement with each type it carries mapped through `f`.
fn map_stmt<F: Fn(Type) -> Type>(f: &F, s: &Stmt) -> (r: Stmt)
    requires
        applies_to_types(f),
        stmt_mappable(*s),
    ensures
        stmt_mapped(f, *s, r, 1),
        stmt_mappable(r),
        stmt_size(r) == stmt_size(*s),
    decreases stmt_size(*s), 0nat,
{
    let kind = match &s.kind {
        StmtKind::SVar(p, e) => {
            let q = map_pattern(f, p);
            StmtKind::SVar(q, map_expr(f, e))
        },
        StmtKind::SDef(m, x, gs, ps, t, b) => {
            let qs = map_patterns(f, ps);
            let u = apply_once(f, copy_type(t));
            let c = map_block(f, b);
            StmtKind::SDef(copy_meta(m), copy_name(x), copy_names(gs), qs, u, c)
        },
        StmtKind::SBif(m, x, gs, ts, t) => {
            let us = map_types(f, ts);
            let u = apply_once(f, copy_type(t));
            StmtKind::SBif(copy_meta(m), copy_name(x), copy_names(gs), us, u)
        },
        StmtKind::SEnum(m, x, gs, xts) => {
            let yts = map_named_types(f, xts);
            StmtKind::SEnum(copy_meta(m), copy_name(x), copy_names(gs), yts)
        },
        StmtKind::SBit(m, x, gs) => StmtKind::SBit(copy_meta(m), copy_name(x), copy_names(gs)),
        StmtKind::SNoop => StmtKind::SNoop,
        _ => {
            proof {
                assert(false);
            }
            StmtKind::SNoop
        },
    };
    Stmt { info: s.info, kind }
}

impl Expr {
    /// The expression with each type it carries, its own and those of the
    /// expressions, patterns, blocks and type arguments within it, mapped
    /// through `f`; the operands of an array concatenation, and all within
    /// them, are mapped twice.
    pub fn map_type<F: Fn(Type) -> Type>(self, f: &F) -> (r: Expr)
        requires
            applies_to_types(f),
            expr_mappable(self),
        ensures
            expr_mapped(f, self, r, 1),
    {
        map_expr(f, &self)
    }
}

impl Block {
    /// A block of the given statements, value and origin.
    pub fn new(ss: Vec<Stmt>, e: Expr, info: Info) -> (b: Block)
        ensures
            b.ss == ss,
            b.e == e,
            b.info == info,
    {
        Block { ss, e, info }
    }

    /// The block with each type of its statements and value mapped through
    /// `f`.
    pub fn map_type<F: Fn(Type) -> Type>(self, f: &F) -> (r: Block)
        requires
            applies_to_types(f),
            block_mappable(self),
        ensures
            block_mapped(f, self, r, 1),
    {
        map_block(f, &self)
    }
}

impl Stmt {
    /// The statement with each type it carries mapped through `f`.
    pub fn map_type<F: Fn(Type) -> Type>(self, f: &F) -> (r: Stmt)
        requires
            applies_to_types(f),
            stmt_mappable(self),
        ensures
            stmt_mapped(f, self, r, 1),
    {
        map_stmt(f, &self)
    }
}

impl ExprKind {
    /// The expression of this form with the given type and origin.
    pub fn with(self, t: Type, info: Info) -> (e: Expr)
        ensures
            e.t == t,
            e.info == info,
            *e.kind == self,
    {
        Expr { t, info, kind: Rc::new(self) }
    }
}

impl StmtKind {
    /// The statement of this form with the given origin.
    pub fn with(self, info: Info) -> (s: Stmt)
        ensures
            s.info == info,
            s.kind == self,
    {
        Stmt { info, kind: self }
    }
}

/// Mapping through a function that gives back its argument leaves every
/// type as it was, however many times it is applied.
pub proof fn law_identity_keeps_type<F: Fn(Type) -> Type>(f: F, t: Type, r: Type, n: nat)
    requires
        forall|x: Type, y: Type| #[trigger] f.ensures((x,), y) ==> y == x,
        type_mapped(f, t, r, n),
    ensures
        r == t,
{
    let c = choose|c: Seq<Type>| type_chain(f, c, t, r, n);
    assert forall|i: int| 0 <= i <= n implies #[trigger] c[i] == t by {
        lemma_chain_constant(f, c, t, r, n, i);
    }
}

/// Every entry of a chain of a function that gives back its argument is
/// the start.
proof fn lemma_chain_constant<F: Fn(Type) -> Type>(f: F, c: Seq<Type>, t: Type, r: Type, n: nat, i: int)
    requires
        forall|x: Type, y: Type| #[trigger] f.ensures((x,), y) ==> y == x,
        type_chain(f, c, t, r, n),
        0 <= i <= n,
    ensures
        c[i] == t,
    decreases i,
{
    if i > 0 {
        lemma_chain_constant(f, c, t, r, n, i - 1);
        assert(chain_step(f, c, i - 1));
    }
}

/// `f` gives back the type it is called with.
pub open spec fn gives_back<F: Fn(Type) -> Type>(f: F) -> bool {
    forall|x: Type, y: Type| #[trigger] f.ensures((x,), y) ==> y == x
}

/// Mapping a type through a function that gives back its argument, any
/// number of times, keeps it.
proof fn lemma_type_identity<F: Fn(Type) -> Type>(f: F, t: Type, r: Type, n: nat)
    requires
        gives_back(f),
        type_mapped(f, t, r, n),
    ensures
        type_mapped(f, t, r, 0),
{
    law_identity_keeps_type(f, t, r, n);
    assert(type_chain(f, seq![t], t, r, 0));
}

/// Mapping a list of types through a function that gives back its
/// argument keeps every type.
proof fn lemma_types_identity<F: Fn(Type) -> Type>(f: F, ts: Seq<Type>, rs: Seq<Type>, n: nat)
    requires
        gives_back(f),
        types_mapped(f, ts, rs, n),
    ensures
        types_mapped(f, ts, rs, 0),
{
    assert forall|i: int| 0 <= i < ts.len() implies #[trigger] type_mapped(f, ts[i], rs[i], 0) by {
        lemma_type_identity(f, ts[i], rs[i], n);
    }
}

/// Mapping a list of named types through a function that gives back its
/// argument keeps every type.
proof fn lemma_named_types_identity<F: Fn(Type) -> Type>(f: F, ts: Seq<(Name, Type)>, rs: Seq<(Name, Type)>, n: nat)
    requires
        gives_back(f),
        named_types_mapped(f, ts, rs, n),
    ensures
        named_types_mapped(f, ts, rs, 0),
{
    assert forall|i: int| 0 <= i < ts.len() implies #[trigger] type_mapped(f, ts[i].1, rs[i].1, 0) by {
        assert(type_mapped(f, ts[i].1, rs[i].1, n));
        lemma_type_identity(f, ts[i].1, rs[i].1, n);
    }
}

/// Mapping a pattern through a function that gives back its argument keeps
/// every type it carries.
proof fn lemma_pattern_identity<F: Fn(Type) -> Type>(f: F, p: Pattern, r: Pattern, n: nat)
    requires
        gives_back(f),
        pattern_mapped(f, p, r, n),
    ensures
        pattern_mapped(f, p, r, 0),
    decreases p,
{
    lemma_type_identity(f, p.t, r.t, n);
    match (&*p.kind, &*r.kind) {
        (PatternKind::POr(p0, p1), PatternKind::POr(r0, r1)) => {
            lemma_pattern_identity(f, *p0, *r0, n);
            lemma_pattern_identity(f, *p1, *r1, n);
        },
        (PatternKind::PNoop(p0), PatternKind::PNoop(r0)) => {
            lemma_pattern_identity(f, *p0, *r0, n);
        },
        (PatternKind::PRecord(ps), PatternKind::PRecord(rs)) => {
            lemma_named_patterns_identity(f, ps@, rs@, n);
        },
        (PatternKind::PRecordConcat(p0, p1), PatternKind::PRecordConcat(r0, r1)) => {
            lemma_pattern_identity(f, *p0, *r0, n);
            lemma_pattern_identity(f, *p1, *r1, n);
        },
        (PatternKind::PArray(ps), PatternKind::PArray(rs)) => {
            lemma_patterns_identity(f, ps@, rs@, n);
        },
        (PatternKind::PArrayConcat(p0, p1), PatternKind::PArrayConcat(r0, r1)) => {
            lemma_pattern_identity(f, *p0, *r0, n);
            lemma_pattern_identity(f, *p1, *r1, n);
        },
        (PatternKind::PTuple(ps), PatternKind::PTuple(rs)) => {
            lemma_patterns_identity(f, ps@, rs@, n);
        },
        (PatternKind::PVariant(_, ts, _, p0), PatternKind::PVariant(_, rs, _, r0)) => {
            lemma_types_identity(f, ts@, rs@, n);
            lemma_pattern_identity(f, *p0, *r0, n);
        },
        _ => {},
    }
}

/// Mapping a list of patterns through a function that gives back its argument keeps
/// every type it carries.
proof fn lemma_patterns_identity<F: Fn(Type) -> Type>(f: F, ps: Seq<Pattern>, rs: Seq<Pattern>, n: nat)
    requires
        gives_back(f),
        patterns_mapped(f, ps, rs, n),
    ensures
        patterns_mapped(f, ps, rs, 0),
    decreases ps,
{
    if ps.len() > 0 {
        lemma_patterns_identity(f, ps.drop_last(), rs.drop_last(), n);
        lemma_pattern_identity(f, ps.last(), rs.last(), n);
    }
}

/// Mapping a list of named patterns through a function that gives back its argument keeps
/// every type it carries.
proof fn lemma_named_patterns_identity<F: Fn(Type) -> Type>(f: F, ps: Seq<(Name, Pattern)>, rs: Seq<(Name, Pattern)>, n: nat)
    requires
        gives_back(f),
        named_patterns_mapped(f, ps, rs, n),
    ensures
        named_patterns_mapped(f, ps, rs, 0),
    decreases ps,
{
    if ps.len() > 0 {
        lemma_named_patterns_identity(f, ps.drop_last(), rs.drop_last(), n);
        lemma_pattern_identity(f, ps.last().1, rs.last().1, n);
    }
}

/// Mapping an expression through a function that gives back its argument keeps
/// every type it carries.
proof fn lemma_expr_identity<F: Fn(Type) -> Type>(f: F, e: Expr, r: Expr, n: nat)
    requires
        gives_back(f),
        expr_mapped(f, e, r, n),
    ensures
        expr_mapped(f, e, r, 0),
    decreases e,
{
    lemma_type_identity(f, e.t, r.t, n);
    match (&*e.kind, &*r.kind) {
        (ExprKind::EFun(ps, t, b0), ExprKind::EFun(ws, v, b2)) => {
            lemma_patterns_identity(f, ps@, ws@, n);
            lemma_type_identity(f, *t, *v, n);
            lemma_block_identity(f, *b0, *b2, n);
        },
        (ExprKind::EFunCall(e0, es), ExprKind::EFunCall(r0, rs)) => {
            lemma_expr_identity(f, *e0, *r0, n);
            lemma_exprs_identity(f, es@, rs@, n);
        },
        (ExprKind::EFunCallDirect(_, ts, es), ExprKind::EFunCallDirect(_, vs, rs)) => {
            lemma_types_identity(f, ts@, vs@, n);
            lemma_exprs_identity(f, es@, rs@, n);
        },
        (ExprKind::EFunReturn(e0), ExprKind::EFunReturn(r0)) => {
            lemma_expr_identity(f, *e0, *r0, n);
        },
        (ExprKind::ELoop(b0), ExprKind::ELoop(b2)) => {
            lemma_block_identity(f, *b0, *b2, n);
        },
        (ExprKind::EBreak(e0), ExprKind::EBreak(r0)) => {
            lemma_expr_identity(f, *e0, *r0, n);
        },
        (ExprKind::EMatch(e0, xs), ExprKind::EMatch(r0, zs)) => {
            lemma_expr_identity(f, *e0, *r0, n);
            lemma_arms_identity(f, xs@, zs@, n);
        },
        (ExprKind::EArray(es), ExprKind::EArray(rs)) => {
            lemma_exprs_identity(f, es@, rs@, n);
        },
        (ExprKind::EArrayConcat(e0, e1), ExprKind::EArrayConcat(r0, r1)) => {
            lemma_expr_identity(f, *e0, *r0, 2 * n);
            lemma_expr_identity(f, *e1, *r1, 2 * n);
        },
        (ExprKind::EArrayAccess(e0, e1), ExprKind::EArrayAccess(r0, r1)) => {
            lemma_expr_identity(f, *e0, *r0, n);
            lemma_expr_identity(f, *e1, *r1, n);
        },
        (ExprKind::EIfElse(e0, b0, c0), ExprKind::EIfElse(r0, b2, c2)) => {
            lemma_expr_identity(f, *e0, *r0, n);
            lemma_block_identity(f, *b0, *b2, n);
            lemma_block_identity(f, *c0, *c2, n);
        },
        (ExprKind::ERecord(xs), ExprKind::ERecord(zs)) => {
            lemma_named_exprs_identity(f, xs@, zs@, n);
        },
        (ExprKind::ERecordAccess(e0, _), ExprKind::ERecordAccess(r0, _)) => {
            lemma_expr_identity(f, *e0, *r0, n);
        },
        (ExprKind::ERecordConcat(e0, e1), ExprKind::ERecordConcat(r0, r1)) => {
            lemma_expr_identity(f, *e0, *r0, n);
            lemma_expr_identity(f, *e1, *r1, n);
        },
        (ExprKind::EMut(e0, e1), ExprKind::EMut(r0, r1)) => {
            lemma_expr_identity(f, *e0, *r0, n);
            lemma_expr_identity(f, *e1, *r1, n);
        },
        (ExprKind::EDef(_, ts), ExprKind::EDef(_, vs)) => {
            lemma_types_identity(f, ts@, vs@, n);
        },
        (ExprKind::EVariant(_, ts, _, e0), ExprKind::EVariant(_, vs, _, r0)) => {
            lemma_types_identity(f, ts@, vs@, n);
            lemma_expr_identity(f, *e0, *r0, n);
        },
        (ExprKind::EDo(b0), ExprKind::EDo(b2)) => {
            lemma_block_identity(f, *b0, *b2, n);
        },
        (ExprKind::ENoop(e0), ExprKind::ENoop(r0)) => {
            lemma_expr_identity(f, *e0, *r0, n);
        },
        (ExprKind::ETuple(es), ExprKind::ETuple(rs)) => {
            lemma_exprs_identity(f, es@, rs@, n);
        },
        (ExprKind::ETupleAccess(e0, _), ExprKind::ETupleAccess(r0, _)) => {
            lemma_expr_identity(f, *e0, *r0, n);
        },
        (ExprKind::EFor(p0, e0, b0), ExprKind::EFor(p2, r0, b2)) => {
            lemma_pattern_identity(f, *p0, *p2, n);
            lemma_expr_identity(f, *e0, *r0, n);
            lemma_block_identity(f, *b0, *b2, n);
        },
        (ExprKind::EWhile(e0, b0), ExprKind::EWhile(r0, b2)) => {
            lemma_expr_identity(f, *e0, *r0, n);
            lemma_block_identity(f, *b0, *b2, n);
        },
        _ => {},
    }
}

/// Mapping a list of expressions through a function that gives back its argument keeps
/// every type it carries.
proof fn lemma_exprs_identity<F: Fn(Type) -> Type>(f: F, es: Seq<Expr>, rs: Seq<Expr>, n: nat)
    requires
        gives_back(f),
        exprs_mapped(f, es, rs, n),
    ensures
        exprs_mapped(f, es, rs, 0),
    decreases es,
{
    if es.len() > 0 {
        lemma_exprs_identity(f, es.drop_last(), rs.drop_last(), n);
        lemma_expr_identity(f, es.last(), rs.last(), n);
    }
}

/// Mapping a list of fields through a function that gives back its argument keeps
/// every type it carries.
proof fn lemma_named_exprs_identity<F: Fn(Type) -> Type>(f: F, es: Seq<(Name, Expr)>, rs: Seq<(Name, Expr)>, n: nat)
    requires
        gives_back(f),
        named_exprs_mapped(f, es, rs, n),
    ensures
        named_exprs_mapped(f, es, rs, 0),
    decreases es,
{
    if es.len() > 0 {
        lemma_named_exprs_identity(f, es.drop_last(), rs.drop_last(), n);
        lemma_expr_identity(f, es.last().1, rs.last().1, n);
    }
}

/// Mapping a list of arms through a function that gives back its argument keeps
/// every type it carries.
proof fn lemma_arms_identity<F: Fn(Type) -> Type>(f: F, xs: Seq<(Pattern, Block)>, rs: Seq<(Pattern, Block)>, n: nat)
    requires
        gives_back(f),
        arms_mapped(f, xs, rs, n),
    ensures
        arms_mapped(f, xs, rs, 0),
    decreases xs,
{
    if xs.len() > 0 {
        lemma_arms_identity(f, xs.drop_last(), rs.drop_last(), n);
        lemma_pattern_identity(f, xs.last().0, rs.last().0, n);
        lemma_block_identity(f, xs.last().1, rs.last().1, n);
    }
}

/// Mapping a block through a function that gives back its argument keeps
/// every type it carries.
proof fn lemma_block_identity<F: Fn(Type) -> Type>(f: F, x: Block, r: Block, n: nat)
    requires
        gives_back(f),
        block_mapped(f, x, r, n),
    ensures
        block_mapped(f, x, r, 0),
    decreases x,
{
    lemma_stmts_identity(f, x.ss@, r.ss@, n);
    lemma_expr_identity(f, x.e, r.e, n);
}

/// Mapping a list of statements through a function that gives back its argument keeps
/// every type it carries.
proof fn lemma_stmts_identity<F: Fn(Type) -> Type>(f: F, ss: Seq<Stmt>, rs: Seq<Stmt>, n: nat)
    requires
        gives_back(f),
        stmts_mapped(f, ss, rs, n),
    ensures
        stmts_mapped(f, ss, rs, 0),
    decreases ss,
{
    if ss.len() > 0 {
        lemma_stmts_identity(f, ss.drop_last(), rs.drop_last(), n);
        lemma_stmt_identity(f, ss.last(), rs.last(), n);
    }
}

/// Mapping a statement through a function that gives back its argument keeps
/// every type it carries.
proof fn lemma_stmt_identity<F: Fn(Type) -> Type>(f: F, s: Stmt, r: Stmt, n: nat)
    requires
        gives_back(f),
        stmt_mapped(f, s, r, n),
    ensures
        stmt_mapped(f, s, r, 0),
    decreases s,
{
    match (&s.kind, &r.kind) {
        (StmtKind::SVar(p0, e0), StmtKind::SVar(p2, r0)) => {
            lemma_pattern_identity(f, *p0, *p2, n);
            lemma_expr_identity(f, *e0, *r0, n);
        },
        (StmtKind::SDef(_, _, _, ps, t, b0), StmtKind::SDef(_, _, _, ws, v, b2)) => {
            lemma_patterns_identity(f, ps@, ws@, n);
            lemma_type_identity(f, *t, *v, n);
            lemma_block_identity(f, *b0, *b2, n);
        },
        (StmtKind::SBif(_, _, _, ts, t), StmtKind::SBif(_, _, _, vs, v)) => {
            lemma_types_identity(f, ts@, vs@, n);
            lemma_type_identity(f, *t, *v, n);
        },
        (StmtKind::SEnum(_, _, _, xts), StmtKind::SEnum(_, _, _, zts)) => {
            lemma_named_types_identity(f, xts@, zts@, n);
        },
        _ => {},
    }
}


/// Mapping an expression through a function that gives back its argument
/// leaves it as it was: every type it carries is kept (mapped no times),
/// and its forms, names, literals and origins are kept too.
pub proof fn law_identity_keeps_expr<F: Fn(Type) -> Type>(f: F, e: Expr, r: Expr, n: nat)
    requires
        gives_back(f),
        expr_mapped(f, e, r, n),
    ensures
        expr_mapped(f, e, r, 0),
{
    lemma_expr_identity(f, e, r, n);
}

/// The expression is one that mapping types takes and holds no array
/// concatenation.
pub open spec fn expr_no_concat(e: Expr) -> bool
    decreases e,
{
    match *e.kind {
        ExprKind::EConst(_) => true,
        ExprKind::EFun(_, _, b) => block_no_concat(b),
        ExprKind::EFunCall(a, es) => expr_no_concat(a) && exprs_no_concat(es@),
        ExprKind::EFunCallDirect(_, _, es) => exprs_no_concat(es@),
        ExprKind::EFunReturn(a) => expr_no_concat(a),
        ExprKind::ELoop(b) => block_no_concat(b),
        ExprKind::EBreak(a) => expr_no_concat(a),
        ExprKind::EContinue => true,
        ExprKind::EMatch(a, xs) => expr_no_concat(a) && arms_no_concat(xs@),
        ExprKind::EArray(es) => exprs_no_concat(es@),
        ExprKind::EArrayConcat(_, _) => false,
        ExprKind::EArrayAccess(a0, a1) => expr_no_concat(a0) && expr_no_concat(a1),
        ExprKind::EIfElse(a, b0, b1) => expr_no_concat(a) && block_no_concat(b0) && block_no_concat(b1),
        ExprKind::ERecord(xs) => named_exprs_no_concat(xs@),
        ExprKind::ERecordAccess(a, _) => expr_no_concat(a),
        ExprKind::ERecordConcat(a0, a1) => expr_no_concat(a0) && expr_no_concat(a1),
        ExprKind::EMut(a0, a1) => expr_no_concat(a0) && expr_no_concat(a1),
        ExprKind::EVar(_) => true,
        ExprKind::EDef(_, _) => true,
        ExprKind::EVariant(_, _, _, a) => expr_no_concat(a),
        ExprKind::EDo(b) => block_no_concat(b),
        ExprKind::ENoop(a) => expr_no_concat(a),
        ExprKind::ETuple(es) => exprs_no_concat(es@),
        ExprKind::ETupleAccess(a, _) => expr_no_concat(a),
        ExprKind::EFor(_, a, b) => expr_no_concat(a) && block_no_concat(b),
        ExprKind::EWhile(a, b) => expr_no_concat(a) && block_no_concat(b),
        ExprKind::EError => true,
        _ => false,
    }
}

/// No expression of the list holds an array concatenation.
pub open spec fn exprs_no_concat(es: Seq<Expr>) -> bool
    decreases es,
{
    es.len() > 0 ==> exprs_no_concat(es.drop_last()) && expr_no_concat(es.last())
}

/// No field expression of the list holds an array concatenation.
pub open spec fn named_exprs_no_concat(es: Seq<(Name, Expr)>) -> bool
    decreases es,
{
    es.len() > 0 ==> named_exprs_no_concat(es.drop_last()) && expr_no_concat(es.last().1)
}

/// No arm's block holds an array concatenation.
pub open spec fn arms_no_concat(xs: Seq<(Pattern, Block)>) -> bool
    decreases xs,
{
    xs.len() > 0 ==> arms_no_concat(xs.drop_last()) && block_no_concat(xs.last().1)
}

/// The block's statements and value hold no array concatenation.
pub open spec fn block_no_concat(b: Block) -> bool
    decreases b,
{
    stmts_no_concat(b.ss@) && expr_no_concat(b.e)
}

/// No statement of the list holds an array concatenation.
pub open spec fn stmts_no_concat(ss: Seq<Stmt>) -> bool
    decreases ss,
{
    ss.len() > 0 ==> stmts_no_concat(ss.drop_last()) && stmt_no_concat(ss.last())
}

/// The statement is one that mapping types takes and holds no array
/// concatenation.
pub open spec fn stmt_no_concat(s: Stmt) -> bool
    decreases s,
{
    match s.kind {
        StmtKind::SVar(_, e) => expr_no_concat(e),
        StmtKind::SDef(_, _, _, _, _, b) => block_no_concat(b),
        StmtKind::SBif(_, _, _, _, _) => true,
        StmtKind::SEnum(_, _, _, _) => true,
        StmtKind::SBit(_, _, _) => true,
        StmtKind::SNoop => true,
        _ => false,
    }
}

/// `h` gives what `g` gives for what `f` gives.
pub open spec fn composes<F: Fn(Type) -> Type, G: Fn(Type) -> Type, H: Fn(Type) -> Type>(f: F, g: G, h: H) -> bool {
    forall|t: Type, z: Type, y: Type| #[trigger] f.ensures((t,), z) && #[trigger] g.ensures((z,), y) ==> h.ensures((t,), y)
}

/// Mapping a type once through `f` and then once through `g` maps it once
/// through `h` where `h` gives what `g` gives for what `f` gives.
proof fn lemma_type_then<F: Fn(Type) -> Type, G: Fn(Type) -> Type, H: Fn(Type) -> Type>(f: F, g: G, h: H, t: Type, m: Type, r: Type)
    requires
        composes(f, g, h),
        type_mapped(f, t, m, 1),
        type_mapped(g, m, r, 1),
    ensures
        type_mapped(h, t, r, 1),
{
    let c1 = choose|c: Seq<Type>| type_chain(f, c, t, m, 1);
    let c2 = choose|c: Seq<Type>| type_chain(g, c, m, r, 1);
    assert(chain_step(f, c1, 0));
    assert(chain_step(g, c2, 0));
    assert(f.ensures((t,), m));
    assert(g.ensures((m,), r));
    let c = seq![t, r];
    assert(chain_step(h, c, 0));
    assert(type_chain(h, c, t, r, 1));
}

/// A list of types mapped through `f` then `g` is mapped through `h`.
proof fn lemma_types_then<F: Fn(Type) -> Type, G: Fn(Type) -> Type, H: Fn(Type) -> Type>(f: F, g: G, h: H, ts: Seq<Type>, ms: Seq<Type>, rs: Seq<Type>)
    requires
        composes(f, g, h),
        types_mapped(f, ts, ms, 1),
        types_mapped(g, ms, rs, 1),
    ensures
        types_mapped(h, ts, rs, 1),
{
    assert forall|i: int| 0 <= i < ts.len() implies #[trigger] type_mapped(h, ts[i], rs[i], 1) by {
        lemma_type_then(f, g, h, ts[i], ms[i], rs[i]);
    }
}

/// A list of named types mapped through `f` then `g` is mapped through
/// `h`.
proof fn lemma_named_types_then<F: Fn(Type) -> Type, G: Fn(Type) -> Type, H: Fn(Type) -> Type>(
    f: F,
    g: G,
    h: H,
    ts: Seq<(Name, Type)>,
    ms: Seq<(Name, Type)>,
    rs: Seq<(Name, Type)>,
)
    requires
        composes(f, g, h),
        named_types_mapped(f, ts, ms, 1),
        named_types_mapped(g, ms, rs, 1),
    ensures
        named_types_mapped(h, ts, rs, 1),
{
    assert forall|i: int| 0 <= i < ts.len() implies #[trigger] rs[i].0 == ts[i].0 by {
        assert(ms[i].0 == ts[i].0);
        assert(rs[i].0 == ms[i].0);
    }
    assert forall|i: int| 0 <= i < ts.len() implies #[trigger] type_mapped(h, ts[i].1, rs[i].1, 1) by {
        assert(type_mapped(f, ts[i].1, ms[i].1, 1));
        assert(type_mapped(g, ms[i].1, rs[i].1, 1));
        lemma_type_then(f, g, h, ts[i].1, ms[i].1, rs[i].1);
    }
}

/// Mapping a pattern through `f` and then through `g` maps it through `h`
/// where `h` gives what `g` gives for what `f` gives.
proof fn lemma_pattern_then<F: Fn(Type) -> Type, G: Fn(Type) -> Type, H: Fn(Type) -> Type>(f: F, g: G, h: H, p: Pattern, m: Pattern, r: Pattern)
    requires
        composes(f, g, h),
        pattern_mapped(f, p, m, 1),
        pattern_mapped(g, m, r, 1),
    ensures
        pattern_mapped(h, p, r, 1),
    decreases p,
{
    lemma_type_then(f, g, h, p.t, m.t, r.t);
    match (&*p.kind, &*m.kind, &*r.kind) {
        (PatternKind::POr(p0, p1), PatternKind::POr(m0, m1), PatternKind::POr(r0, r1)) => {
            lemma_pattern_then(f, g, h, *p0, *m0, *r0);
            lemma_pattern_then(f, g, h, *p1, *m1, *r1);
        },
        (PatternKind::PNoop(p0), PatternKind::PNoop(m0), PatternKind::PNoop(r0)) => {
            lemma_pattern_then(f, g, h, *p0, *m0, *r0);
        },
        (PatternKind::PRecord(ps), PatternKind::PRecord(ms), PatternKind::PRecord(rs)) => {
            lemma_named_patterns_then(f, g, h, ps@, ms@, rs@);
        },
        (PatternKind::PRecordConcat(p0, p1), PatternKind::PRecordConcat(m0, m1), PatternKind::PRecordConcat(r0, r1)) => {
            lemma_pattern_then(f, g, h, *p0, *m0, *r0);
            lemma_pattern_then(f, g, h, *p1, *m1, *r1);
        },
        (PatternKind::PArray(ps), PatternKind::PArray(ms), PatternKind::PArray(rs)) => {
            lemma_patterns_then(f, g, h, ps@, ms@, rs@);
        },
        (PatternKind::PArrayConcat(p0, p1), PatternKind::PArrayConcat(m0, m1), PatternKind::PArrayConcat(r0, r1)) => {
            lemma_pattern_then(f, g, h, *p0, *m0, *r0);
            lemma_pattern_then(f, g, h, *p1, *m1, *r1);
        },
        (PatternKind::PTuple(ps), PatternKind::PTuple(ms), PatternKind::PTuple(rs)) => {
            lemma_patterns_then(f, g, h, ps@, ms@, rs@);
        },
        (PatternKind::PVariant(_, ts, _, p0), PatternKind::PVariant(_, ms, _, m0), PatternKind::PVariant(_, rs, _, r0)) => {
            lemma_types_then(f, g, h, ts@, ms@, rs@);
            lemma_pattern_then(f, g, h, *p0, *m0, *r0);
        },
        _ => {},
    }
}

/// Mapping a list of patterns through `f` and then through `g` maps it through `h`
/// where `h` gives what `g` gives for what `f` gives.
proof fn lemma_patterns_then<F: Fn(Type) -> Type, G: Fn(Type) -> Type, H: Fn(Type) -> Type>(f: F, g: G, h: H, ps: Seq<Pattern>, ms: Seq<Pattern>, rs: Seq<Pattern>)
    requires
        composes(f, g, h),
        patterns_mapped(f, ps, ms, 1),
        patterns_mapped(g, ms, rs, 1),
    ensures
        patterns_mapped(h, ps, rs, 1),
    decreases ps,
{
    if ps.len() > 0 {
        lemma_patterns_then(f, g, h, ps.drop_last(), ms.drop_last(), rs.drop_last());
        lemma_pattern_then(f, g, h, ps.last(), ms.last(), rs.last());
    }
}

/// Mapping a list of named patterns through `f` and then through `g` maps it through `h`
/// where `h` gives what `g` gives for what `f` gives.
proof fn lemma_named_patterns_then<F: Fn(Type) -> Type, G: Fn(Type) -> Type, H: Fn(Type) -> Type>(f: F, g: G, h: H, ps: Seq<(Name, Pattern)>, ms: Seq<(Name, Pattern)>, rs: Seq<(Name, Pattern)>)
    requires
        composes(f, g, h),
        named_patterns_mapped(f, ps, ms, 1),
        named_patterns_mapped(g, ms, rs, 1),
    ensures
        named_patterns_mapped(h, ps, rs, 1),
    decreases ps,
{
    if ps.len() > 0 {
        lemma_named_patterns_then(f, g, h, ps.drop_last(), ms.drop_last(), rs.drop_last());
        lemma_pattern_then(f, g, h, ps.last().1, ms.last().1, rs.last().1);
    }
}

/// Mapping an expression through `f` and then through `g` maps it through `h`
/// where `h` gives what `g` gives for what `f` gives.
proof fn lemma_expr_then<F: Fn(Type) -> Type, G: Fn(Type) -> Type, H: Fn(Type) -> Type>(f: F, g: G, h: H, e: Expr, m: Expr, r: Expr)
    requires
        composes(f, g, h),
        expr_no_concat(e),
        expr_mapped(f, e, m, 1),
        expr_mapped(g, m, r, 1),
    ensures
        expr_mapped(h, e, r, 1),
    decreases e,
{
    lemma_type_then(f, g, h, e.t, m.t, r.t);
    match (&*e.kind, &*m.kind, &*r.kind) {
        (ExprKind::EFun(ps, t, b0), ExprKind::EFun(qs, u, b1), ExprKind::EFun(ws, v, b2)) => {
            lemma_patterns_then(f, g, h, ps@, qs@, ws@);
            lemma_type_then(f, g, h, *t, *u, *v);
            lemma_block_then(f, g, h, *b0, *b1, *b2);
        },
        (ExprKind::EFunCall(e0, es), ExprKind::EFunCall(m0, ms), ExprKind::EFunCall(r0, rs)) => {
            lemma_expr_then(f, g, h, *e0, *m0, *r0);
            lemma_exprs_then(f, g, h, es@, ms@, rs@);
        },
        (ExprKind::EFunCallDirect(_, ts, es), ExprKind::EFunCallDirect(_, us, ms), ExprKind::EFunCallDirect(_, vs, rs)) => {
            lemma_types_then(f, g, h, ts@, us@, vs@);
            lemma_exprs_then(f, g, h, es@, ms@, rs@);
        },
        (ExprKind::EFunReturn(e0), ExprKind::EFunReturn(m0), ExprKind::EFunReturn(r0)) => {
            lemma_expr_then(f, g, h, *e0, *m0, *r0);
        },
        (ExprKind::ELoop(b0), ExprKind::ELoop(b1), ExprKind::ELoop(b2)) => {
            lemma_block_then(f, g, h, *b0, *b1, *b2);
        },
        (ExprKind::EBreak(e0), ExprKind::EBreak(m0), ExprKind::EBreak(r0)) => {
            lemma_expr_then(f, g, h, *e0, *m0, *r0);
        },
        (ExprKind::EMatch(e0, xs), ExprKind::EMatch(m0, ys), ExprKind::EMatch(r0, zs)) => {
            lemma_expr_then(f, g, h, *e0, *m0, *r0);
            lemma_arms_then(f, g, h, xs@, ys@, zs@);
        },
        (ExprKind::EArray(es), ExprKind::EArray(ms), ExprKind::EArray(rs)) => {
            lemma_exprs_then(f, g, h, es@, ms@, rs@);
        },
        (ExprKind::EArrayAccess(e0, e1), ExprKind::EArrayAccess(m0, m1), ExprKind::EArrayAccess(r0, r1)) => {
            lemma_expr_then(f, g, h, *e0, *m0, *r0);
            lemma_expr_then(f, g, h, *e1, *m1, *r1);
        },
        (ExprKind::EIfElse(e0, b0, c0), ExprKind::EIfElse(m0, b1, c1), ExprKind::EIfElse(r0, b2, c2)) => {
            lemma_expr_then(f, g, h, *e0, *m0, *r0);
            lemma_block_then(f, g, h, *b0, *b1, *b2);
            lemma_block_then(f, g, h, *c0, *c1, *c2);
        },
        (ExprKind::ERecord(xs), ExprKind::ERecord(ys), ExprKind::ERecord(zs)) => {
            lemma_named_exprs_then(f, g, h, xs@, ys@, zs@);
        },
        (ExprKind::ERecordAccess(e0, _), ExprKind::ERecordAccess(m0, _), ExprKind::ERecordAccess(r0, _)) => {
            lemma_expr_then(f, g, h, *e0, *m0, *r0);
        },
        (ExprKind::ERecordConcat(e0, e1), ExprKind::ERecordConcat(m0, m1), ExprKind::ERecordConcat(r0, r1)) => {
            lemma_expr_then(f, g, h, *e0, *m0, *r0);
            lemma_expr_then(f, g, h, *e1, *m1, *r1);
        },
        (ExprKind::EMut(e0, e1), ExprKind::EMut(m0, m1), ExprKind::EMut(r0, r1)) => {
            lemma_expr_then(f, g, h, *e0, *m0, *r0);
            lemma_expr_then(f, g, h, *e1, *m1, *r1);
        },
        (ExprKind::EDef(_, ts), ExprKind::EDef(_, us), ExprKind::EDef(_, vs)) => {
            lemma_types_then(f, g, h, ts@, us@, vs@);
        },
        (ExprKind::EVariant(_, ts, _, e0), ExprKind::EVariant(_, us, _, m0), ExprKind::EVariant(_, vs, _, r0)) => {
            lemma_types_then(f, g, h, ts@, us@, vs@);
            lemma_expr_then(f, g, h, *e0, *m0, *r0);
        },
        (ExprKind::EDo(b0), ExprKind::EDo(b1), ExprKind::EDo(b2)) => {
            lemma_block_then(f, g, h, *b0, *b1, *b2);
        },
        (ExprKind::ENoop(e0), ExprKind::ENoop(m0), ExprKind::ENoop(r0)) => {
            lemma_expr_then(f, g, h, *e0, *m0, *r0);
        },
        (ExprKind::ETuple(es), ExprKind::ETuple(ms), ExprKind::ETuple(rs)) => {
            lemma_exprs_then(f, g, h, es@, ms@, rs@);
        },
        (ExprKind::ETupleAccess(e0, _), ExprKind::ETupleAccess(m0, _), ExprKind::ETupleAccess(r0, _)) => {
            lemma_expr_then(f, g, h, *e0, *m0, *r0);
        },
        (ExprKind::EFor(p0, e0, b0), ExprKind::EFor(p1, m0, b1), ExprKind::EFor(p2, r0, b2)) => {
            lemma_pattern_then(f, g, h, *p0, *p1, *p2);
            lemma_expr_then(f, g, h, *e0, *m0, *r0);
            lemma_block_then(f, g, h, *b0, *b1, *b2);
        },
        (ExprKind::EWhile(e0, b0), ExprKind::EWhile(m0, b1), ExprKind::EWhile(r0, b2)) => {
            lemma_expr_then(f, g, h, *e0, *m0, *r0);
            lemma_block_then(f, g, h, *b0, *b1, *b2);
        },
        _ => {},
    }
}

/// Mapping a list of expressions through `f` and then through `g` maps it through `h`
/// where `h` gives what `g` gives for what `f` gives.
proof fn lemma_exprs_then<F: Fn(Type) -> Type, G: Fn(Type) -> Type, H: Fn(Type) -> Type>(f: F, g: G, h: H, es: Seq<Expr>, ms: Seq<Expr>, rs: Seq<Expr>)
    requires
        composes(f, g, h),
        exprs_no_concat(es),
        exprs_mapped(f, es, ms, 1),
        exprs_mapped(g, ms, rs, 1),
    ensures
        exprs_mapped(h, es, rs, 1),
    decreases es,
{
    if es.len() > 0 {
        lemma_exprs_then(f, g, h, es.drop_last(), ms.drop_last(), rs.drop_last());
        lemma_expr_then(f, g, h, es.last(), ms.last(), rs.last());
    }
}

/// Mapping a list of fields through `f` and then through `g` maps it through `h`
/// where `h` gives what `g` gives for what `f` gives.
proof fn lemma_named_exprs_then<F: Fn(Type) -> Type, G: Fn(Type) -> Type, H: Fn(Type) -> Type>(f: F, g: G, h: H, es: Seq<(Name, Expr)>, ms: Seq<(Name, Expr)>, rs: Seq<(Name, Expr)>)
    requires
        composes(f, g, h),
        named_exprs_no_concat(es),
        named_exprs_mapped(f, es, ms, 1),
        named_exprs_mapped(g, ms, rs, 1),
    ensures
        named_exprs_mapped(h, es, rs, 1),
    decreases es,
{
    if es.len() > 0 {
        lemma_named_exprs_then(f, g, h, es.drop_last(), ms.drop_last(), rs.drop_last());
        lemma_expr_then(f, g, h, es.last().1, ms.last().1, rs.last().1);
    }
}

/// Mapping a list of arms through `f` and then through `g` maps it through `h`
/// where `h` gives what `g` gives for what `f` gives.
proof fn lemma_arms_then<F: Fn(Type) -> Type, G: Fn(Type) -> Type, H: Fn(Type) -> Type>(f: F, g: G, h: H, xs: Seq<(Pattern, Block)>, ms: Seq<(Pattern, Block)>, rs: Seq<(Pattern, Block)>)
    requires
        composes(f, g, h),
        arms_no_concat(xs),
        arms_mapped(f, xs, ms, 1),
        arms_mapped(g, ms, rs, 1),
    ensures
        arms_mapped(h, xs, rs, 1),
    decreases xs,
{
    if xs.len() > 0 {
        lemma_arms_then(f, g, h, xs.drop_last(), ms.drop_last(), rs.drop_last());
        lemma_pattern_then(f, g, h, xs.last().0, ms.last().0, rs.last().0);
        lemma_block_then(f, g, h, xs.last().1, ms.last().1, rs.last().1);
    }
}

/// Mapping a block through `f` and then through `g` maps it through `h`
/// where `h` gives what `g` gives for what `f` gives.
proof fn lemma_block_then<F: Fn(Type) -> Type, G: Fn(Type) -> Type, H: Fn(Type) -> Type>(f: F, g: G, h: H, x: Block, m: Block, r: Block)
    requires
        composes(f, g, h),
        block_no_concat(x),
        block_mapped(f, x, m, 1),
        block_mapped(g, m, r, 1),
    ensures
        block_mapped(h, x, r, 1),
    decreases x,
{
    lemma_stmts_then(f, g, h, x.ss@, m.ss@, r.ss@);
    lemma_expr_then(f, g, h, x.e, m.e, r.e);
}

/// Mapping a list of statements through `f` and then through `g` maps it through `h`
/// where `h` gives what `g` gives for what `f` gives.
proof fn lemma_stmts_then<F: Fn(Type) -> Type, G: Fn(Type) -> Type, H: Fn(Type) -> Type>(f: F, g: G, h: H, ss: Seq<Stmt>, ms: Seq<Stmt>, rs: Seq<Stmt>)
    requires
        composes(f, g, h),
        stmts_no_concat(ss),
        stmts_mapped(f, ss, ms, 1),
        stmts_mapped(g, ms, rs, 1),
    ensures
        stmts_mapped(h, ss, rs, 1),
    decreases ss,
{
    if ss.len() > 0 {
        lemma_stmts_then(f, g, h, ss.drop_last(), ms.drop_last(), rs.drop_last());
        lemma_stmt_then(f, g, h, ss.last(), ms.last(), rs.last());
    }
}

/// Mapping a statement through `f` and then through `g` maps it through `h`
/// where `h` gives what `g` gives for what `f` gives.
proof fn lemma_stmt_then<F: Fn(Type) -> Type, G: Fn(Type) -> Type, H: Fn(Type) -> Type>(f: F, g: G, h: H, s: Stmt, m: Stmt, r: Stmt)
    requires
        composes(f, g, h),
        stmt_no_concat(s),
        stmt_mapped(f, s, m, 1),
        stmt_mapped(g, m, r, 1),
    ensures
        stmt_mapped(h, s, r, 1),
    decreases s,
{
    match (&s.kind, &m.kind, &r.kind) {
        (StmtKind::SVar(p0, e0), StmtKind::SVar(p1, m0), StmtKind::SVar(p2, r0)) => {
            lemma_pattern_then(f, g, h, *p0, *p1, *p2);
            lemma_expr_then(f, g, h, *e0, *m0, *r0);
        },
        (StmtKind::SDef(_, _, _, ps, t, b0), StmtKind::SDef(_, _, _, qs, u, b1), StmtKind::SDef(_, _, _, ws, v, b2)) => {
            lemma_patterns_then(f, g, h, ps@, qs@, ws@);
            lemma_type_then(f, g, h, *t, *u, *v);
            lemma_block_then(f, g, h, *b0, *b1, *b2);
        },
        (StmtKind::SBif(_, _, _, ts, t), StmtKind::SBif(_, _, _, us, u), StmtKind::SBif(_, _, _, vs, v)) => {
            lemma_types_then(f, g, h, ts@, us@, vs@);
            lemma_type_then(f, g, h, *t, *u, *v);
        },
        (StmtKind::SEnum(_, _, _, xts), StmtKind::SEnum(_, _, _, yts), StmtKind::SEnum(_, _, _, zts)) => {
            lemma_named_types_then(f, g, h, xts@, yts@, zts@);
        },
        _ => {},
    }
}

/// Mapping an expression that holds no array concatenation through `f`
/// and then through `g` maps every type it carries once through `h`, where
/// `h` gives what `g` gives for what `f` gives. (The operands of an array
/// concatenation are mapped twice, so there the law does not hold.)
pub proof fn law_map_type_composes<F: Fn(Type) -> Type, G: Fn(Type) -> Type, H: Fn(Type) -> Type>(
    f: F,
    g: G,
    h: H,
    e: Expr,
    m: Expr,
    r: Expr,
)
    requires
        composes(f, g, h),
        expr_no_concat(e),
        expr_mapped(f, e, m, 1),
        expr_mapped(g, m, r, 1),
    ensures
        expr_mapped(h, e, r, 1),
{
    lemma_expr_then(f, g, h, e, m, r);
}

/// Type equality is symmetric.
pub proof fn law_types_equal_symmetric(a: Type, b: Type)
    ensures
        types_equal(a, b) == types_equal(b, a),
    decreases a,
{
    match (&*a.kind, &*b.kind) {
        (TypeKind::TFun(ts0, t0), TypeKind::TFun(ts1, t1)) => {
            lemma_type_lists_equal_symmetric(ts0@, ts1@);
            law_types_equal_symmetric(*t0, *t1);
        },
        (TypeKind::TTuple(ts0, _), TypeKind::TTuple(ts1, _)) => {
            lemma_type_lists_equal_symmetric(ts0@, ts1@);
        },
        (TypeKind::TRecord(t0), TypeKind::TRecord(t1)) => {
            law_types_equal_symmetric(*t0, *t1);
        },
        (TypeKind::TNominal(_, ts0), TypeKind::TNominal(_, ts1)) => {
            lemma_type_lists_equal_symmetric(ts0@, ts1@);
        },
        (TypeKind::TAlias(_, _, t0), TypeKind::TAlias(_, _, t1)) => {
            law_types_equal_symmetric(*t0, *t1);
        },
        (TypeKind::TRowExtend(xt0, t0), TypeKind::TRowExtend(xt1, t1)) => {
            law_types_equal_symmetric(xt0.1, xt1.1);
            law_types_equal_symmetric(*t0, *t1);
        },
        (TypeKind::TRecordConcat(t00, t01), TypeKind::TRecordConcat(t10, t11)) => {
            law_types_equal_symmetric(*t00, *t10);
            law_types_equal_symmetric(*t01, *t11);
        },
        (TypeKind::TArray(t0, _), TypeKind::TArray(t1, _)) => {
            law_types_equal_symmetric(*t0, *t1);
        },
        _ => {},
    }
}

/// Equality of type lists is symmetric.
proof fn lemma_type_lists_equal_symmetric(a: Seq<Type>, b: Seq<Type>)
    ensures
        type_lists_equal(a, b) == type_lists_equal(b, a),
    decreases a,
{
    if a.len() > 0 && b.len() == a.len() {
        lemma_type_lists_equal_symmetric(a.drop_last(), b.drop_last());
        law_types_equal_symmetric(a.last(), b.last());
    }
}

/// Equality of literals is symmetric.
pub proof fn law_consts_equal_symmetric(a: Const, b: Const)
    ensures
        consts_equal(a, b) == consts_equal(b, a),
{
}

/// The type holds no array concatenation.
pub open spec fn concat_free(t: Type) -> bool
    decreases t,
{
    match *t.kind {
        TypeKind::TFun(ts, a) => all_concat_free(ts@) && concat_free(a),
        TypeKind::TTuple(ts, _) => all_concat_free(ts@),
        TypeKind::TRecord(a) => concat_free(a),
        TypeKind::TNominal(_, ts) => all_concat_free(ts@),
        TypeKind::TAlias(_, _, a) => concat_free(a),
        TypeKind::TRowExtend(xa, a) => concat_free(xa.1) && concat_free(a),
        TypeKind::TRecordConcat(a0, a1) => concat_free(a0) && concat_free(a1),
        TypeKind::TArray(a, _) => concat_free(a),
        TypeKind::TArrayConcat(_, _) => false,
        _ => true,
    }
}

/// The types of the list hold no array concatenation.
pub open spec fn all_concat_free(ts: Seq<Type>) -> bool
    decreases ts,
{
    if ts.len() == 0 {
        true
    } else {
        all_concat_free(ts.drop_last()) && concat_free(ts.last())
    }
}

/// Type equality is reflexive on the types that hold no array
/// concatenation (an array concatenation is equal to no type, itself
/// included).
pub proof fn law_types_equal_reflexive(a: Type)
    requires
        concat_free(a),
    ensures
        types_equal(a, a),
    decreases a,
{
    match &*a.kind {
        TypeKind::TFun(ts, t) => {
            lemma_type_lists_equal_reflexive(ts@);
            law_types_equal_reflexive(*t);
        },
        TypeKind::TTuple(ts, _) => lemma_type_lists_equal_reflexive(ts@),
        TypeKind::TRecord(t) => law_types_equal_reflexive(*t),
        TypeKind::TNominal(_, ts) => lemma_type_lists_equal_reflexive(ts@),
        TypeKind::TAlias(_, _, t) => law_types_equal_reflexive(*t),
        TypeKind::TRowExtend(xt, t) => {
            law_types_equal_reflexive(xt.1);
            law_types_equal_reflexive(*t);
        },
        TypeKind::TRecordConcat(t0, t1) => {
            law_types_equal_reflexive(*t0);
            law_types_equal_reflexive(*t1);
        },
        TypeKind::TArray(t, _) => law_types_equal_reflexive(*t),
        _ => {},
    }
}

/// Equality of type lists is reflexive on lists without array
/// concatenations.
proof fn lemma_type_lists_equal_reflexive(a: Seq<Type>)
    requires
        all_concat_free(a),
    ensures
        type_lists_equal(a, a),
    decreases a,
{
    if a.len() > 0 {
        lemma_type_lists_equal_reflexive(a.drop_last());
        law_types_equal_reflexive(a.last());
    }
}

/// An array concatenation is equal to no type.
pub proof fn law_array_concat_never_equal(a: Type, b: Type)
    requires
        *a.kind is TArrayConcat,
    ensures
        !types_equal(a, b),
{
}

/// Equality of literals is reflexive on every literal but a float whose
/// bits are a NaN.
pub proof fn law_consts_equal_reflexive(a: Const)
    requires
        a matches Const::CFloat(b) ==> !(b & 0x7f80_0000u32 == 0x7f80_0000u32 && b & 0x007f_ffffu32 != 0u32),
    ensures
        consts_equal(a, a),
{
}

/// Equal lists of types have the same length and are equal one by one.
proof fn lemma_type_lists_equal_elems(a: Seq<Type>, b: Seq<Type>)
    requires
        type_lists_equal(a, b),
    ensures
        a.len() == b.len(),
        forall|i: int| 0 <= i < a.len() ==> #[trigger] types_equal(a[i], b[i]),
    decreases a.len(),
{
    if a.len() > 0 {
        lemma_type_lists_equal_elems(a.drop_last(), b.drop_last());
        assert forall|i: int| 0 <= i < a.len() implies #[trigger] types_equal(a[i], b[i]) by {
            if i < a.len() - 1 {
                assert(a.drop_last()[i] == a[i]);
                assert(b.drop_last()[i] == b[i]);
            }
        }
    }
}

/// Equal types are of the same form with equal parts, at every node: equal
/// array types have the same size and equal element types; equal tuple
/// types the same flag and as many element types, equal one by one; equal
/// nominal types the same name and equal arguments; equal functions equal
/// parameter and result types; equal rows the same label and equal field
/// and rest types; equal variables and generics the same name; equal
/// aliases equal targets. An array concatenation equals nothing.
pub proof fn law_types_equal_parts(a: Type, b: Type)
    requires
        types_equal(a, b),
    ensures
        *a.kind matches TypeKind::TArray(t0, n0) ==> (*b.kind matches TypeKind::TArray(t1, n1) && n0 == n1
            && types_equal(t0, t1)),
        *a.kind matches TypeKind::TTuple(ts0, c0) ==> (*b.kind matches TypeKind::TTuple(ts1, c1) && c0 == c1
            && ts0@.len() == ts1@.len() && forall|i: int|
            0 <= i < ts0@.len() ==> #[trigger] types_equal(ts0@[i], ts1@[i])),
        *a.kind matches TypeKind::TNominal(x0, ts0) ==> (*b.kind matches TypeKind::TNominal(x1, ts1) && x0@ == x1@
            && ts0@.len() == ts1@.len() && forall|i: int|
            0 <= i < ts0@.len() ==> #[trigger] types_equal(ts0@[i], ts1@[i])),
        *a.kind matches TypeKind::TFun(ts0, t0) ==> (*b.kind matches TypeKind::TFun(ts1, t1) && ts0@.len()
            == ts1@.len() && (forall|i: int| 0 <= i < ts0@.len() ==> #[trigger] types_equal(ts0@[i], ts1@[i]))
            && types_equal(t0, t1)),
        *a.kind matches TypeKind::TRecord(t0) ==> (*b.kind matches TypeKind::TRecord(t1) && types_equal(t0, t1)),
        *a.kind matches TypeKind::TAlias(_, _, t0) ==> (*b.kind matches TypeKind::TAlias(_, _, t1) && types_equal(
            t0,
            t1,
        )),
        *a.kind matches TypeKind::TRowExtend(xt0, t0) ==> (*b.kind matches TypeKind::TRowExtend(xt1, t1) && xt0.0@
            == xt1.0@ && types_equal(xt0.1, xt1.1) && types_equal(t0, t1)),
        *a.kind matches TypeKind::TRecordConcat(t00, t01) ==> (*b.kind matches TypeKind::TRecordConcat(t10, t11)
            && types_equal(t00, t10) && types_equal(t01, t11)),
        *a.kind matches TypeKind::TGeneric(x0) ==> (*b.kind matches TypeKind::TGeneric(x1) && x0@ == x1@),
        *a.kind matches TypeKind::TVar(x0) ==> (*b.kind matches TypeKind::TVar(x1) && x0@ == x1@),
        *a.kind is TRowEmpty ==> *b.kind is TRowEmpty,
        *a.kind is TUnit ==> *b.kind is TUnit,
        *a.kind is TNever ==> *b.kind is TNever,
        *a.kind is TError ==> *b.kind is TError,
        !(*a.kind is TArrayConcat),
{
    match (&*a.kind, &*b.kind) {
        (TypeKind::TFun(ts0, _), TypeKind::TFun(ts1, _)) => lemma_type_lists_equal_elems(ts0@, ts1@),
        (TypeKind::TTuple(ts0, _), TypeKind::TTuple(ts1, _)) => lemma_type_lists_equal_elems(ts0@, ts1@),
        (TypeKind::TNominal(_, ts0), TypeKind::TNominal(_, ts1)) => lemma_type_lists_equal_elems(ts0@, ts1@),
        _ => {},
    }
}

/// Equal literals are of the same form with equal contents: two booleans,
/// integers, characters or strings are equal exactly when their values
/// are; equal floats have the same bits or are zeros of either sign; the
/// unit literal equals itself; literals of different forms are never equal.
pub proof fn law_consts_equal_contents(a: Const, b: Const)
    ensures
        a matches Const::CBool(x) ==> (b matches Const::CBool(y) ==> (consts_equal(a, b) <==> x == y)),
        a matches Const::CInt(x) ==> (b matches Const::CInt(y) ==> (consts_equal(a, b) <==> x == y)),
        a matches Const::CChar(x) ==> (b matches Const::CChar(y) ==> (consts_equal(a, b) <==> x == y)),
        a matches Const::CString(x) ==> (b matches Const::CString(y) ==> (consts_equal(a, b) <==> x@ == y@)),
        a matches Const::CFloat(x) ==> (b matches Const::CFloat(y) ==> (consts_equal(a, b) ==> (x == y || (x
            & 0x7fff_ffffu32 == 0u32 && y & 0x7fff_ffffu32 == 0u32)))),
        (a is CUnit && b is CUnit) ==> consts_equal(a, b),
        consts_equal(a, b) ==> ((a is CInt) == (b is CInt) && (a is CFloat) == (b is CFloat) && (a is CBool) == (
        b is CBool) && (a is CString) == (b is CString) && (a is CUnit) == (b is CUnit) && (a is CChar) == (
        b is CChar)),
{
}

} // verus!
