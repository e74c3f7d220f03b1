use arc_lang::hir::fields_to_row;
use arc_lang::hir::row_to_fields;
use arc_lang::hir::Block;
use arc_lang::hir::Const;
use arc_lang::hir::ExprKind;
use arc_lang::hir::Info;
use arc_lang::hir::PatternKind;
use arc_lang::hir::StmtKind;
use arc_lang::hir::Type;
use arc_lang::hir::TypeKind;
use arc_lang::ssa::mutated;
use std::cell::Cell;

fn ty(kind: TypeKind) -> Type {
    Type::from(kind)
}

fn unit() -> Type {
    ty(TypeKind::TUnit)
}

fn var(x: &str) -> Type {
    ty(TypeKind::TVar(String::from(x)))
}

/// Wraps a type in an array type: lets a test count how often a type was
/// mapped.
fn wrap(t: Type) -> Type {
    ty(TypeKind::TArray(t, None))
}

/// How many array types are wrapped around a unit type.
fn depth(t: &Type) -> usize {
    match &*t.kind {
        TypeKind::TArray(inner, None) => 1 + depth(inner),
        _ => 0,
    }
}

const HERE: Info = Info::Source(0, 1, 2);

#[test]
fn type_equality_ignores_alias_origins() {
    let a = ty(TypeKind::TAlias(Info::Builtin, HERE, var("x")));
    let b = ty(TypeKind::TAlias(HERE, Info::Builtin, var("x")));
    assert!(a.eq(&b));
    assert!(!a.eq(&ty(TypeKind::TAlias(HERE, HERE, var("y")))));
    let f0 = ty(TypeKind::TFun(vec![unit(), var("a")], unit()));
    let f1 = ty(TypeKind::TFun(vec![unit(), var("a")], unit()));
    let f2 = ty(TypeKind::TFun(vec![unit()], unit()));
    assert!(f0.eq(&f1));
    assert!(!f0.eq(&f2));
    assert!(!f2.eq(&f0));
    assert!(!unit().eq(&ty(TypeKind::TNever)));
}

#[test]
fn array_concatenation_types_are_never_equal() {
    let c = ty(TypeKind::TArrayConcat(unit(), unit()));
    assert!(!c.eq(&c));
    assert!(!c.kind.eq(&c.kind()));
}

#[test]
fn type_kind_copies_the_node() {
    let t = ty(TypeKind::TNominal(String::from("Vec"), vec![var("T")]));
    let k = t.kind();
    assert!(k.eq(&t.kind));
}

#[test]
fn literal_equality() {
    assert!(Const::CInt(3).eq(&Const::CInt(3)));
    assert!(!Const::CInt(3).eq(&Const::CBool(true)));
    assert!(Const::CString(String::from("a")).eq(&Const::CString(String::from("a"))));
    assert!(Const::CFloat(1.5f32.to_bits()).eq(&Const::CFloat(1.5f32.to_bits())));
    assert!(Const::CFloat(0.0f32.to_bits()).eq(&Const::CFloat((-0.0f32).to_bits())));
    assert!(!Const::CFloat(f32::NAN.to_bits()).eq(&Const::CFloat(f32::NAN.to_bits())));
    assert!(Const::CChar('x').eq(&Const::CChar('x').copy()));
}

#[test]
fn row_round_trip_reverses() {
    let xts = vec![(String::from("a"), unit()), (String::from("b"), var("t"))];
    let row = fields_to_row(xts);
    let back = row_to_fields(row);
    let names: Vec<String> = back.iter().map(|x| x.0.clone()).collect();
    assert_eq!(names, vec![String::from("b"), String::from("a")]);
    assert!(back[0].1.eq(&var("t")));
    assert!(back[1].1.eq(&unit()));
    assert!(row_to_fields(fields_to_row(Vec::new())).is_empty());
}

#[test]
fn pattern_map_type_maps_every_type() {
    let inner = PatternKind::PVar(String::from("x")).with(unit(), HERE);
    let p = PatternKind::PTuple(vec![inner, PatternKind::PIgnore.with(unit(), HERE)]).with(unit(), Info::Builtin);
    let r = p.map_type(&wrap);
    assert_eq!(depth(&r.t), 1);
    assert_eq!(r.info, Info::Builtin);
    match &*r.kind {
        PatternKind::PTuple(ps) => {
            assert_eq!(ps.len(), 2);
            assert!(ps.iter().all(|q| depth(&q.t) == 1));
            assert!(matches!(&*ps[0].kind, PatternKind::PVar(x) if x == "x"));
        }
        _ => panic!("a tuple pattern was expected"),
    }
}

#[test]
fn expr_map_type_maps_concatenated_operands_twice() {
    let calls = Cell::new(0usize);
    let f = |t: Type| {
        calls.set(calls.get() + 1);
        wrap(t)
    };
    let a = ExprKind::EVar(String::from("a")).with(unit(), HERE);
    let b = ExprKind::EConst(Const::CInt(1)).with(unit(), HERE);
    let e = ExprKind::EArrayConcat(a, b).with(unit(), HERE);
    let r = e.map_type(&f);
    assert_eq!(calls.get(), 5);
    assert_eq!(depth(&r.t), 1);
    match &*r.kind {
        ExprKind::EArrayConcat(x, y) => {
            assert_eq!(depth(&x.t), 2);
            assert_eq!(depth(&y.t), 2);
        }
        _ => panic!("a concatenation was expected"),
    }
}

#[test]
fn block_and_stmt_map_type() {
    let p = PatternKind::PVar(String::from("x")).with(unit(), HERE);
    let e = ExprKind::EConst(Const::CBool(true)).with(unit(), HERE);
    let s = StmtKind::SVar(p, e).with(HERE);
    let v = ExprKind::EVar(String::from("x")).with(unit(), HERE);
    let b = Block::new(vec![s], v, HERE);
    let r = b.map_type(&wrap);
    assert_eq!(r.ss.len(), 1);
    assert_eq!(depth(&r.e.t), 1);
    match &r.ss[0].kind {
        StmtKind::SVar(q, d) => {
            assert_eq!(depth(&q.t), 1);
            assert_eq!(depth(&d.t), 1);
        }
        _ => panic!("a variable statement was expected"),
    }
    let def = StmtKind::SBif(Vec::new(), String::from("f"), vec![String::from("T")], vec![unit(), unit()], unit()).with(HERE);
    match def.map_type(&wrap).kind {
        StmtKind::SBif(_, x, gs, ts, t) => {
            assert_eq!(x, "f");
            assert_eq!(gs, vec![String::from("T")]);
            assert!(ts.iter().all(|u| depth(u) == 1));
            assert_eq!(depth(&t), 1);
        }
        _ => panic!("a builtin function statement was expected"),
    }
}

#[test]
fn map_type_with_identity_keeps_types() {
    let e = ExprKind::ETuple(vec![
        ExprKind::EVar(String::from("a")).with(var("A"), HERE),
        ExprKind::EDef(String::from("g"), vec![var("B")]).with(var("C"), HERE),
    ])
    .with(var("D"), HERE);
    let r = e.map_type(&|t: Type| t);
    assert!(r.t.eq(&var("D")));
    match &*r.kind {
        ExprKind::ETuple(es) => {
            assert!(es[0].t.eq(&var("A")));
            assert!(matches!(&*es[1].kind, ExprKind::EDef(x, ts) if x == "g" && ts[0].eq(&var("B"))));
        }
        _ => panic!("a tuple was expected"),
    }
}

fn assign(x: &str) -> arc_lang::hir::Stmt {
    let target = ExprKind::EVar(String::from(x)).with(unit(), HERE);
    let value = ExprKind::EConst(Const::CInt(0)).with(unit(), HERE);
    let p = PatternKind::PIgnore.with(unit(), HERE);
    StmtKind::SVar(p, ExprKind::EMut(target, value).with(unit(), HERE)).with(HERE)
}

fn unit_value() -> arc_lang::hir::Expr {
    ExprKind::EConst(Const::CUnit).with(unit(), HERE)
}

#[test]
fn mutated_lists_assigned_variables_once_in_order() {
    let then_branch = Block::new(vec![assign("z"), assign("y")], unit_value(), HERE);
    let else_branch = Block::new(vec![assign("x")], unit_value(), HERE);
    let cond = ExprKind::EVar(String::from("c")).with(unit(), HERE);
    let p = PatternKind::PIgnore.with(unit(), HERE);
    let branch = StmtKind::SVar(p, ExprKind::EIfElse(cond, then_branch, else_branch).with(unit(), HERE)).with(HERE);
    let loop_body = Block::new(vec![assign("w")], unit_value(), HERE);
    let p = PatternKind::PIgnore.with(unit(), HERE);
    let looping = StmtKind::SVar(p, ExprKind::ELoop(loop_body).with(unit(), HERE)).with(HERE);
    let b = Block::new(vec![assign("y"), branch, assign("q"), looping], unit_value(), HERE);
    let xs0 = vec![String::from("x"), String::from("y"), String::from("z"), String::from("w")];
    assert_eq!(
        mutated(&b, xs0),
        vec![String::from("y"), String::from("z"), String::from("x"), String::from("w")]
    );
}

#[test]
fn law_identity_mapping_keeps_expression() {
    let a = ExprKind::EVar(String::from("a")).with(wrap(unit()), HERE);
    let b = ExprKind::EVar(String::from("b")).with(unit(), HERE);
    let e = ExprKind::EArrayConcat(a, b).with(wrap(wrap(unit())), HERE);
    let r = e.map_type(&|t: Type| t);
    assert_eq!(depth(&r.t), 2);
    assert_eq!(r.info, HERE);
    match &*r.kind {
        ExprKind::EArrayConcat(x, y) => {
            assert_eq!(depth(&x.t), 1);
            assert_eq!(depth(&y.t), 0);
            assert!(matches!(&*x.kind, ExprKind::EVar(n) if n == "a"));
            assert!(matches!(&*y.kind, ExprKind::EVar(n) if n == "b"));
        }
        _ => panic!("expected an array concatenation"),
    }
}

#[test]
fn law_map_type_composes_without_concatenation() {
    let x = ExprKind::EVar(String::from("x")).with(unit(), HERE);
    let e = ExprKind::ETuple(vec![x]).with(unit(), HERE);
    let twice = e.map_type(&wrap).map_type(&wrap);
    let once = ExprKind::ETuple(vec![ExprKind::EVar(String::from("x")).with(unit(), HERE)])
        .with(unit(), HERE)
        .map_type(&|t: Type| wrap(wrap(t)));
    assert_eq!(depth(&twice.t), depth(&once.t));
    match (&*twice.kind, &*once.kind) {
        (ExprKind::ETuple(a), ExprKind::ETuple(b)) => assert_eq!(depth(&a[0].t), depth(&b[0].t)),
        _ => panic!("expected tuples"),
    }
}

#[test]
fn law_type_equality_reflexive_but_not_on_concatenation() {
    let t = ty(TypeKind::TFun(vec![unit(), var("a")], ty(TypeKind::TArray(unit(), Some(2)))));
    assert!(t.eq(&t));
    let c = ty(TypeKind::TArrayConcat(unit(), unit()));
    assert!(!c.eq(&c));
}
