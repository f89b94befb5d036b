use bisync_suffix::emit::{try_expand, Expansion};
use bisync_suffix::invocation::parse_invocation;
use bisync_suffix::suffix;

/// The text as a token stream writes it out.
fn spaced(text: &str) -> String {
    text.parse::<proc_macro2::TokenStream>().unwrap().to_string()
}

fn expansion(input: &str) -> Expansion {
    let request = parse_invocation(input).unwrap();
    try_expand(&request).unwrap()
}

fn block(asynchronous: &str, blocking: &str) -> String {
    format!(
        "{{ #[cfg(feature = \"async\")] {{ {} }} #[cfg(all(feature = \"blocking\", not(feature = \"async\")))] {{ {} }} }}",
        spaced(asynchronous),
        spaced(blocking),
    )
}

#[test]
fn awaited_read_gets_the_suffix() {
    let both = expansion("\"_async\", self.sensor.read().await?");
    assert_eq!(both.asynchronous, spaced("self.sensor.read_async().await?"));
    assert_eq!(both.blocking, spaced("self.sensor.read().await?"));
}

#[test]
fn both_operands_of_a_sum_are_renamed() {
    let both = expansion("\"_x\", a.f().await + b.g().await");
    assert_eq!(both.asynchronous, spaced("a.f_x().await + b.g_x().await"));
    assert_eq!(both.blocking, spaced("a.f().await + b.g().await"));
}

#[test]
fn awaited_function_calls_in_a_sum_are_left_alone() {
    let both = expansion("\"_x\", a().await + b().await");
    assert_eq!(both.asynchronous, spaced("a().await + b().await"));
    assert_eq!(both.asynchronous, both.blocking);
}

#[test]
fn awaited_field_is_left_alone() {
    let both = expansion("\"_x\", obj.field.await");
    assert_eq!(both.asynchronous, spaced("obj.field.await"));
    assert_eq!(both.asynchronous, both.blocking);
}

#[test]
fn block_holds_both_alternatives_behind_their_guards() {
    let text = suffix("\"_async\", self.sensor.read().await?").unwrap().unwrap();
    assert_eq!(text, block("self.sensor.read_async().await?", "self.sensor.read().await?"));
}

#[test]
fn block_is_an_expression_with_two_guarded_blocks() {
    let text = suffix("\"_x\", a.f().await").unwrap().unwrap();
    let parsed: syn::ExprBlock = syn::parse_str(&text).unwrap();
    assert_eq!(parsed.block.stmts.len(), 2);
    let expected: syn::ExprBlock = syn::parse_str(
        "{ #[cfg(feature = \"async\")] { a.f_x().await } #[cfg(all(feature = \"blocking\", not(feature = \"async\")))] { a.f().await } }",
    ).unwrap();
    assert_eq!(parsed, expected);
}

#[test]
fn documented_use_expands_to_the_async_read() {
    let both = expansion("\"_async\", self.ll.battery_charge_current_adc().read().await?");
    assert_eq!(
        both.asynchronous,
        spaced("self.ll.battery_charge_current_adc().read_async().await?")
    );
    assert_eq!(both.blocking, spaced("self.ll.battery_charge_current_adc().read().await?"));
}

#[test]
fn suffix_is_appended_with_nothing_between() {
    assert_eq!(expansion("\"2\", a.f().await").asynchronous, spaced("a.f2().await"));
    assert_eq!(expansion("\"Async\", a.f().await").asynchronous, spaced("a.fAsync().await"));
}

#[test]
fn empty_suffix_changes_nothing() {
    let both = expansion("\"\", a.f().await");
    assert_eq!(both.asynchronous, both.blocking);
}

#[test]
fn suffix_is_the_value_of_the_literal() {
    assert_eq!(expansion("\"_a\\u{62}\", x.m().await").asynchronous, spaced("x.m_ab().await"));
    assert_eq!(expansion("r#\"_raw\"#, x.m().await").asynchronous, spaced("x.m_raw().await"));
}

#[test]
fn blocking_alternative_parses_to_the_same_expression_again() {
    let first = expansion("\"_x\", if a.b().await > 1 { c.d(e.f().await).await } else { g!(h) }");
    let again = expansion(&format!("\"_x\", {}", first.blocking));
    assert_eq!(again.blocking, first.blocking);
    assert_eq!(again.asynchronous, first.asynchronous);
    let original: syn::Expr =
        syn::parse_str("if a.b().await > 1 { c.d(e.f().await).await } else { g!(h) }").unwrap();
    let reparsed: syn::Expr = syn::parse_str(&first.blocking).unwrap();
    assert_eq!(reparsed, original);
}

#[test]
fn same_input_gives_the_same_expansion() {
    let input = "\"_x\", a.f(b.g().await).await";
    assert_eq!(suffix(input), suffix(input));
}

#[test]
fn suffix_that_makes_no_identifier_gives_no_expansion() {
    assert_eq!(suffix("\"-x\", a.f().await"), Ok(None));
    assert_eq!(suffix("\" x\", a.f().await"), Ok(None));
    assert_eq!(suffix("\"_x\", a.r#type().await"), Ok(None));
}

#[test]
fn suffix_that_makes_no_identifier_is_harmless_without_a_match() {
    assert_eq!(suffix("\"-x\", a.f()"), Ok(Some(block("a.f()", "a.f()"))));
}
