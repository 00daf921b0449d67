use language::index::Idx;
use language::{
    Ast, BinOp, EnumVariant, Expr, ExprId, Field, Literal, MatchArm, Parameter, Pattern, Span,
    Stmt, TypeExpr,
};

fn span(start: u32, end: u32) -> Span {
    Span { start, end }
}

#[test]
fn expressions_keep_their_spans() {
    let mut ast = Ast::new();
    let one = ast.push_expr(Expr::Literal(Literal::Integer(1)), span(0, 1));
    let two = ast.push_expr(Expr::Literal(Literal::Float(2.5f64.to_bits())), span(4, 7));
    let sum = ast.push_expr(Expr::Binary { op: BinOp::Add, lhs: one, rhs: two }, span(0, 7));
    assert_eq!(sum.index(), 2);
    assert!(matches!(ast.expr(one), Expr::Literal(Literal::Integer(1))));
    match ast.expr(two) {
        Expr::Literal(Literal::Float(bits)) => assert_eq!(f64::from_bits(*bits), 2.5),
        _ => panic!("not a float"),
    }
    assert_eq!((ast.expr_span(sum).start, ast.expr_span(sum).end), (0, 7));
    *ast.expr_mut(one) = Expr::Continue;
    assert!(matches!(ast.expr(one), Expr::Continue));
    let args = ast.push_expr_ids(&[one, two]);
    assert_eq!(args.len(), 2);
    assert_eq!(ast.expr_ids(args), &[one, two]);
}

#[test]
fn statements_patterns_and_types_are_stored() {
    let mut ast = Ast::default();
    let e = ast.push_expr(Expr::Error, span(0, 0));
    let s = ast.push_stmt(Stmt::Expression(e), span(0, 1));
    assert!(matches!(ast.stmt(s), Stmt::Expression(x) if *x == e));
    assert_eq!(ast.stmt_span(s).end, 1);
    let body = ast.push_stmt_ids(&[s]);
    assert_eq!(ast.stmt_ids(body), &[s]);
    *ast.stmt_mut(s) = Stmt::Expression(ExprId::from_usize(0));
    let p = ast.push_pattern(Pattern::Wildcard, span(2, 3));
    assert!(matches!(ast.pattern(p), Pattern::Wildcard));
    assert_eq!(ast.pattern_span(p).start, 2);
    *ast.pattern_mut(p) = Pattern::Wildcard;
    let ps = ast.push_pattern_ids(&[p, p]);
    assert_eq!(ast.pattern_ids(ps), &[p, p]);
    let t = ast.push_type_expr(TypeExpr::Infer, span(5, 6));
    assert!(matches!(ast.type_expr(t), TypeExpr::Infer));
    assert_eq!(ast.type_expr_span(t).end, 6);
    *ast.type_expr_mut(t) = TypeExpr::Pointer(t);
    assert!(matches!(ast.type_expr(t), TypeExpr::Pointer(_)));
    let ts = ast.push_type_expr_ids(&[t]);
    assert_eq!(ast.type_expr_ids(ts), &[t]);
}

#[test]
fn arms_fields_params_and_variants_are_stored() {
    let mut ast = Ast::new();
    let body = ast.push_expr(Expr::Error, span(0, 1));
    let pat = ast.push_pattern(Pattern::Wildcard, span(0, 1));
    let ty = ast.push_type_expr(TypeExpr::Infer, span(0, 1));
    let arm = ast.push_match_arm(MatchArm { span: span(0, 4), pat, guard: None, body });
    assert_eq!(ast.match_arm(arm).span.end, 4);
    ast.match_arm_mut(arm).guard = Some(body);
    assert_eq!(ast.match_arm(arm).guard, Some(body));
    let arms = ast.push_match_arm_ids(&[arm]);
    assert_eq!(ast.match_arm_ids(arms), &[arm]);

    let mut interner = language::Interner::default();
    let name = interner.intern("f");
    let field = Field { span: span(1, 2), name, ty, default: None };
    let f0 = ast.push_field(field);
    let fs = ast.push_fields(vec![field, Field { default: Some(body), ..field }]);
    assert_eq!(ast.fields(fs).len(), 2);
    assert_eq!(ast.fields(fs)[1].default, Some(body));
    assert_eq!(ast.field(f0).span.start, 1);
    ast.field_mut(f0).default = Some(body);
    let fids = ast.push_field_ids(&[f0]);
    assert_eq!(ast.field_ids(fids), &[f0]);

    let param = Parameter { span: span(3, 4), name: pat, ty: Some(ty), default: None };
    let p0 = ast.push_param(param);
    let ps = ast.push_params(vec![param]);
    assert_eq!(ast.params(ps).len(), 1);
    assert_eq!(ast.param(p0).ty, Some(ty));
    ast.param_mut(p0).ty = None;
    assert_eq!(ast.param(p0).ty, None);

    let variant = EnumVariant { name, ty: None };
    let v0 = ast.push_variant(variant);
    let vs = ast.push_variants(vec![variant, variant, variant]);
    assert_eq!(ast.variants(vs).len(), 3);
    assert_eq!(ast.variant(v0).name, name);
    ast.variant_mut(v0).ty = Some(ty);
    assert_eq!(ast.variant(v0).ty, Some(ty));
}
