use lisp_roots::expr::expr_eq;
use lisp_roots::read::read;

fn read_one(src: &str) -> lisp_roots::expr::Expr {
    let mut es = read(src.to_string()).unwrap();
    assert_eq!(es.len(), 1);
    es.remove(0)
}

#[test]
fn bare_token_reads_as_symbol() {
    let e = read_one("hello");
    assert_eq!(e.to_text(), "hello");
}

#[test]
fn empty_parens_read_as_empty_list() {
    let e = read_one("()");
    assert_eq!(e.to_text(), "()");
}

#[test]
fn nested_lists_read_in_order() {
    let e = read_one("(a (b c) d)");
    assert_eq!(e.to_text(), "(a (b c) d)");
}

#[test]
fn quote_sugar_equals_spelled_out_quote() {
    let a = read_one("'x");
    let b = read_one("(quote x)");
    assert!(expr_eq(&a, &b));
    let a = read_one("'(a (b c))");
    let b = read_one("(quote (a (b c)))");
    assert!(expr_eq(&a, &b));
    let a = read_one("''x");
    let b = read_one("(quote (quote x))");
    assert!(expr_eq(&a, &b));
}

#[test]
fn quoted_form_prints_back_as_sugar() {
    assert_eq!(read_one("(quote x)").to_text(), "'x");
    assert_eq!(read_one("'x").to_text(), "'x");
}

#[test]
fn whitespace_is_insignificant_between_tokens() {
    let a = read_one("(a\tb\n  c)");
    let b = read_one("(a b c)");
    assert!(expr_eq(&a, &b));
}

#[test]
fn delimiters_split_tokens_without_spaces() {
    let es = read("a'b".to_string()).unwrap();
    assert_eq!(es.len(), 2);
    assert_eq!(es[0].to_text(), "a");
    assert_eq!(es[1].to_text(), "'b");
    let e = read_one("(a(b)c)");
    assert_eq!(e.to_text(), "(a (b) c)");
}

#[test]
fn several_top_level_forms_read_in_order() {
    let es = read("(a) b 'c".to_string()).unwrap();
    assert_eq!(es.len(), 3);
    assert_eq!(es[0].to_text(), "(a)");
    assert_eq!(es[1].to_text(), "b");
    assert_eq!(es[2].to_text(), "'c");
}

#[test]
fn print_then_read_round_trips() {
    for src in [
        "x",
        "()",
        "(a b c)",
        "(a (b (c d)) ())",
        "'x",
        "'(a 'b)",
        "(quote)",
        "(() (()) a)",
    ] {
        let e = read_one(src);
        let printed = e.to_text();
        let back = read_one(&printed);
        assert!(expr_eq(&e, &back), "round trip failed for {}", src);
        assert_eq!(back.to_text(), printed);
    }
}

#[test]
fn quote_headed_list_with_extra_elements_prints_as_sugar() {
    // the quote sugar keeps only the second element when printing, as the
    // display rule says; such a form does not round-trip
    assert_eq!(read_one("(quote a b)").to_text(), "'a");
}
