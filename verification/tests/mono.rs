use arc_lang::hir::Block;
use arc_lang::hir::Const;
use arc_lang::hir::ExprKind;
use arc_lang::hir::Info;
use arc_lang::hir::PatternKind;
use arc_lang::hir::StmtKind;
use arc_lang::hir::Type;
use arc_lang::hir::TypeKind;
use arc_lang::mono::instantiate_func;
use arc_lang::mono::make_instances;
use arc_lang::mono::Drain;
use arc_lang::mono::instantiate_type;
use arc_lang::mono::visit_block;
use arc_lang::mono::visit_expr;
use arc_lang::mono::visit_top_stmt;
use arc_lang::mono::visit_type;
use arc_lang::mono::Context;
use arc_lang::mono::Declarations;
use arc_lang::mono::Step;
use arc_lang::ssa;

const HERE: Info = Info::Source(0, 1, 2);

fn ty(kind: TypeKind) -> Type {
    Type::from(kind)
}

fn generic(x: &str) -> Type {
    ty(TypeKind::TGeneric(String::from(x)))
}

fn i32_type() -> Type {
    ty(TypeKind::TNominal(String::from("i32"), vec![]))
}

#[test]
fn visit_type_replaces_parameters_and_aliases() {
    let mut ctx = Context::new();
    ctx.record_type(&String::from("i32"), &vec![]);
    ctx.bind_generic(String::from("T"), i32_type());
    ctx.bind_generic(String::from("U"), ty(TypeKind::TUnit));
    ctx.bind_generic(String::from("T"), ty(TypeKind::TNever));
    let t = ty(TypeKind::TFun(
        vec![generic("T"), ty(TypeKind::TAlias(HERE, HERE, generic("U")))],
        ty(TypeKind::TArray(generic("T"), Some(3))),
    ));
    let r = visit_type(&mut ctx, &t, HERE);
    let expected = ty(TypeKind::TFun(
        vec![ty(TypeKind::TNever), ty(TypeKind::TUnit)],
        ty(TypeKind::TArray(ty(TypeKind::TNever), Some(3))),
    ));
    assert!(r.eq(&expected));
    let n = ty(TypeKind::TNominal(String::from("Vec"), vec![generic("U")]));
    let r = visit_type(&mut ctx, &n, HERE);
    assert!(r.eq(&ty(TypeKind::TNominal(String::from("Vec"), vec![ty(TypeKind::TUnit)]))));
    let types = ctx.recorded_types();
    assert_eq!(types.len(), 2);
    assert_eq!(types[1].0, "Vec");
    assert!(types[1].1.len() == 1 && types[1].1[0].eq(&ty(TypeKind::TUnit)));
    visit_type(&mut ctx, &n, HERE);
    assert_eq!(ctx.recorded_types().len(), 2);
}

#[test]
fn monomorphisation_makes_enum_and_function_instances() {
    let mut ctx = Context::new();
    let mut decls = Declarations::new();
    let option = StmtKind::SEnum(
        vec![],
        String::from("Option"),
        vec![String::from("T")],
        vec![(String::from("Some"), generic("T")), (String::from("None"), ty(TypeKind::TUnit))],
    )
    .with(HERE);
    assert!(ctx.top_stmt_handled(&option));
    assert!(visit_top_stmt(&mut ctx, &mut decls, option).is_none());
    let param = PatternKind::PVar(String::from("a")).with(generic("T"), HERE);
    let body = Block::new(vec![], ExprKind::EVar(String::from("a")).with(generic("T"), HERE), HERE);
    let id = StmtKind::SDef(vec![], String::from("id"), vec![String::from("T")], vec![param], generic("T"), body)
        .with(Info::Builtin);
    assert!(visit_top_stmt(&mut ctx, &mut decls, id).is_none());
    let opt_i32 = ty(TypeKind::TNominal(String::from("Option"), vec![ty(TypeKind::TUnit)]));
    let call = ExprKind::EDef(String::from("id"), vec![opt_i32.clone()]).with(ty(TypeKind::TUnit), HERE);
    let p = PatternKind::PIgnore.with(ty(TypeKind::TUnit), HERE);
    let top = StmtKind::SVar(p, call).with(HERE);
    assert!(ctx.top_stmt_handled(&top));
    let visited = visit_top_stmt(&mut ctx, &mut decls, top);
    assert!(visited.is_some());
    assert_eq!(ctx.recorded_funcs().len(), 1);
    assert_eq!(ctx.recorded_funcs()[0].0, "id");
    assert_eq!(ctx.recorded_types().len(), 1);
    assert!(matches!(instantiate_type(&mut ctx, &decls), Step::Made));
    assert!(matches!(instantiate_type(&mut ctx, &decls), Step::Idle));
    assert!(matches!(instantiate_func(&mut ctx, &decls), Step::Made));
    assert!(matches!(instantiate_func(&mut ctx, &decls), Step::Idle));
    let out = ctx.emitted();
    assert_eq!(out.len(), 2);
    match &out[0].kind {
        StmtKind::SMonoEnum(_, x, us, xts) => {
            assert_eq!(x, "Option");
            assert!(us.len() == 1 && us[0].eq(&ty(TypeKind::TUnit)));
            assert_eq!(xts.len(), 2);
            assert!(xts[0].1.eq(&ty(TypeKind::TUnit)));
        }
        _ => panic!("expected an enumeration instance"),
    }
    match &out[1].kind {
        StmtKind::SMonoDef(_, x, us, ps, t, b) => {
            assert_eq!(x, "id");
            assert!(us.len() == 1 && us[0].eq(&opt_i32));
            assert!(ps[0].t.eq(&opt_i32));
            assert!(t.eq(&opt_i32));
            assert!(b.e.t.eq(&opt_i32));
        }
        _ => panic!("expected a function instance"),
    }
    assert_eq!(out[1].info, Info::Builtin);
    let missing = ExprKind::EDef(String::from("nothing"), vec![]).with(ty(TypeKind::TUnit), HERE);
    visit_expr(&mut ctx, &missing);
    assert!(matches!(instantiate_func(&mut ctx, &decls), Step::Missing));
}

#[test]
fn visit_expr_types_variables_by_their_bindings() {
    let mut ctx = Context::new();
    ctx.record_type(&String::from("i32"), &vec![]);
    ctx.bind_generic(String::from("T"), i32_type());
    let x = PatternKind::PVar(String::from("x")).with(generic("T"), HERE);
    let one = ExprKind::EConst(Const::CInt(1)).with(generic("T"), HERE);
    let read = ExprKind::EVar(String::from("x")).with(ty(TypeKind::TError), HERE);
    let tuple = ExprKind::ETuple(vec![read]).with(ty(TypeKind::TTuple(vec![generic("T")], false)), HERE);
    let b = Block::new(vec![StmtKind::SVar(x, one).with(HERE)], tuple, HERE);
    let r = visit_block(&mut ctx, &b);
    match &r.ss[0].kind {
        StmtKind::SVar(p, e) => {
            assert!(p.t.eq(&i32_type()));
            assert!(matches!(&*p.kind, PatternKind::PVar(n) if n == "x"));
            assert!(e.t.eq(&i32_type()));
        }
        _ => panic!("expected a variable statement"),
    }
    assert!(r.e.t.eq(&ty(TypeKind::TTuple(vec![i32_type()], false))));
    match &*r.e.kind {
        ExprKind::ETuple(es) => {
            assert_eq!(es.len(), 1);
            assert!(es[0].t.eq(&i32_type()));
        }
        _ => panic!("expected a tuple"),
    }
    let noop = ExprKind::ENoop(ExprKind::EVar(String::from("x")).with(ty(TypeKind::TError), HERE))
        .with(ty(TypeKind::TUnit), Info::Builtin);
    let r = visit_expr(&mut ctx, &noop);
    assert!(matches!(&*r.kind, ExprKind::EVar(n) if n == "x"));
    assert!(r.t.eq(&i32_type()));
    assert_eq!(r.info, HERE);
}

#[test]
fn ssa_keeps_the_forms_it_handles() {
    let e = ExprKind::EDef(String::from("f"), vec![i32_type()]).with(ty(TypeKind::TUnit), HERE);
    let r = ssa::visit_expr_stmt(&e);
    assert!(matches!(&*r.kind, ExprKind::EDef(x, ts) if x == "f" && ts.len() == 1));
    assert_eq!(r.info, HERE);
}

#[test]
fn instances_are_recorded_and_made_once() {
    let mut ctx = Context::new();
    let mut decls = Declarations::new();
    let bit = StmtKind::SBit(vec![], String::from("Cell"), vec![String::from("T")]).with(HERE);
    visit_top_stmt(&mut ctx, &mut decls, bit);
    let cell = ty(TypeKind::TNominal(String::from("Cell"), vec![ty(TypeKind::TUnit)]));
    let other = ty(TypeKind::TNominal(String::from("Cell"), vec![ty(TypeKind::TNever)]));
    visit_type(&mut ctx, &cell, HERE);
    visit_type(&mut ctx, &cell, HERE);
    visit_type(&mut ctx, &other, HERE);
    assert_eq!(ctx.recorded_types().len(), 2);
    assert!(matches!(make_instances(&mut ctx, &decls, 10), Drain::Done));
    assert_eq!(ctx.emitted().len(), 2);
    visit_type(&mut ctx, &cell, HERE);
    assert_eq!(ctx.recorded_types().len(), 2);
    assert!(matches!(make_instances(&mut ctx, &decls, 10), Drain::Done));
    assert_eq!(ctx.emitted().len(), 2);
    assert!(matches!(make_instances(&mut ctx, &decls, 0), Drain::OutOfFuel));
}
