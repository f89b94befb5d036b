use bisync_suffix::rewrite::{can_rewrite, rewrite};

fn expr(text: &str) -> syn::Expr {
    syn::parse_str(text).unwrap()
}

fn rewritten(text: &str, suffix: &str) -> syn::Expr {
    let original = expr(text);
    assert!(can_rewrite(&original, suffix));
    let out = rewrite(&original, suffix);
    assert_eq!(original, expr(text));
    out
}

#[test]
fn expression_without_a_match_is_unchanged() {
    for text in [
        "1 + 2",
        "a.f()",
        "a.f().g(h)",
        "f().await",
        "a.b.await",
        "x.await",
        "a.await.await",
        "(a.f()).await",
        "a.f()?.await",
        "a::f(b).await",
        "a.0(b).await",
        "async { a.f() }",
        "foo!(a.f().await)",
    ] {
        assert_eq!(rewritten(text, "_x"), expr(text), "{}", text);
    }
}

#[test]
fn single_match_is_renamed_and_nothing_else() {
    assert_eq!(rewritten("a.f().await", "_x"), expr("a.f_x().await"));
    assert_eq!(
        rewritten("a.f(b.f(), c.f).f(1).await.f()", "_x"),
        expr("a.f(b.f(), c.f).f_x(1).await.f()")
    );
    assert_eq!(
        rewritten("f(a.f(), g.f().await, a.f())", "_async"),
        expr("f(a.f(), g.f_async().await, a.f())")
    );
}

#[test]
fn generic_arguments_stay_with_the_renamed_method() {
    assert_eq!(rewritten("a.get::<u8>(1).await", "_x"), expr("a.get_x::<u8>(1).await"));
}

#[test]
fn matches_in_the_arguments_of_a_match_are_renamed() {
    assert_eq!(
        rewritten("a.f(b.g().await, c.h(d.i().await).await).await", "_x"),
        expr("a.f_x(b.g_x().await, c.h_x(d.i_x().await).await).await")
    );
}

#[test]
fn matches_in_the_receiver_of_a_match_are_renamed() {
    assert_eq!(
        rewritten("a.f().await.g().await.h().await", "_x"),
        expr("a.f_x().await.g_x().await.h_x().await")
    );
}

#[test]
fn matches_below_other_awaits_are_renamed() {
    assert_eq!(rewritten("f(a.g().await).await", "_x"), expr("f(a.g_x().await).await"));
    assert_eq!(rewritten("a.g().await.await", "_x"), expr("a.g_x().await.await"));
    assert_eq!(rewritten("(a.g().await).await", "_x"), expr("(a.g_x().await).await"));
    assert_eq!(rewritten("a.g().await.b.await", "_x"), expr("a.g_x().await.b.await"));
    assert_eq!(rewritten("a[b.c().await].await", "_x"), expr("a[b.c_x().await].await"));
}

#[test]
fn other_awaits_keep_their_operands() {
    assert_eq!(rewritten("f().await + a.b.await + c.await.await", "_x"),
        expr("f().await + a.b.await + c.await.await"));
}

#[test]
fn matches_in_statements_and_branches_are_renamed() {
    assert_eq!(
        rewritten(
            "{ let a = b.c().await; if d.e().await { f.g().await; } else { h.i().await? } }",
            "_x"
        ),
        expr("{ let a = b.c_x().await; if d.e_x().await { f.g_x().await; } else { h.i_x().await? } }")
    );
    assert_eq!(
        rewritten("match a.b().await { Some(c) if c.d().await => c.e().await, _ => 0 }", "_x"),
        expr("match a.b_x().await { Some(c) if c.d_x().await => c.e_x().await, _ => 0 }")
    );
    assert_eq!(
        rewritten("async move { a.b().await }", "_x"),
        expr("async move { a.b_x().await }")
    );
    assert_eq!(rewritten("|a| a.b().await", "_x"), expr("|a| a.b_x().await"));
    assert_eq!(
        rewritten("while let Some(a) = b.c().await { a.d().await; }", "_x"),
        expr("while let Some(a) = b.c_x().await { a.d_x().await; }")
    );
    assert_eq!(
        rewritten("[a.b().await, c.d().await]", "_x"),
        expr("[a.b_x().await, c.d_x().await]")
    );
    assert_eq!(
        rewritten("S { a: b.c().await, ..d.e().await }", "_x"),
        expr("S { a: b.c_x().await, ..d.e_x().await }")
    );
}

#[test]
fn matches_in_nested_items_are_renamed() {
    assert_eq!(
        rewritten("{ async fn f(a: A) -> u8 { a.b().await } f(c) }", "_x"),
        expr("{ async fn f(a: A) -> u8 { a.b_x().await } f(c) }")
    );
}

#[test]
fn macro_arguments_are_not_entered() {
    assert_eq!(
        rewritten("a.b(c!(d.e().await)).await", "_x"),
        expr("a.b_x(c!(d.e().await)).await")
    );
}

#[test]
fn keyword_is_a_method_name_like_any_other() {
    let call = expr("a.b().await");
    assert!(can_rewrite(&call, "ox"));
    match rewrite(&call, "ox") {
        syn::Expr::Await(point) => match *point.base {
            syn::Expr::MethodCall(call) => assert_eq!(call.method.to_string(), "box"),
            _ => unreachable!(),
        },
        _ => unreachable!(),
    }
}

#[test]
fn rewrite_is_told_apart_from_what_cannot_be_renamed() {
    assert!(can_rewrite(&expr("a.f().await"), "_x"));
    assert!(can_rewrite(&expr("a.f().await"), "é"));
    assert!(!can_rewrite(&expr("a.f().await"), "-"));
    assert!(!can_rewrite(&expr("a.f().await"), "_x "));
    assert!(!can_rewrite(&expr("a.f().await"), "::g"));
    assert!(!can_rewrite(&expr("g(a.f().await + 1)"), "!"));
    assert!(!can_rewrite(&expr("a.f(b.g().await).h()"), "()"));
    assert!(can_rewrite(&expr("a.f()"), "-"));
    assert!(can_rewrite(&expr("f().await"), "-"));
    assert!(can_rewrite(&expr("m!(a.f().await)"), "-"));
}

#[test]
fn renamed_method_keeps_its_span() {
    let original = expr("a.f().await");
    let out = rewrite(&original, "_x");
    let (before, after) = match (&original, &out) {
        (syn::Expr::Await(before), syn::Expr::Await(after)) => (before, after),
        _ => unreachable!(),
    };
    match (&*before.base, &*after.base) {
        (syn::Expr::MethodCall(before), syn::Expr::MethodCall(after)) => {
            assert_eq!(after.method.to_string(), "f_x");
            assert_eq!(
                format!("{:?}", after.method.span()),
                format!("{:?}", before.method.span())
            );
        }
        _ => unreachable!(),
    }
}
