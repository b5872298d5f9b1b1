use untilscript::expression::{expression, logic, param_list, relation, struct_field, term};
use untilscript::lex::identifier;
use untilscript::number::number;
use untilscript::statement::{
    compound, parse_end, for_statement, lock, print, statement, variable_assign, variable_declare,
    while_statement, Statement,
};
use untilscript::translate;

fn tr(src: &str) -> Option<String> {
    translate(src.as_bytes()).map(|v| String::from_utf8(v).unwrap())
}

fn text(v: Vec<u8>) -> String {
    String::from_utf8(v).unwrap()
}

#[test]
fn declaration_without_value_defaults_to_zero() {
    assert_eq!(tr("var x;"), Some("DECLARE x TO 0.".to_string()));
    assert_eq!(tr("var counter1;"), Some("DECLARE counter1 TO 0.".to_string()));
}

#[test]
fn declaration_with_value() {
    assert_eq!(tr("var x = 5;"), Some("DECLARE x TO 5.".to_string()));
    assert_eq!(tr("var x=5;"), Some("DECLARE x TO 5.".to_string()));
}

#[test]
fn assignment_renders_set() {
    assert_eq!(tr("x = 5;"), Some("SET x to 5.".to_string()));
}

#[test]
fn precedence_keeps_unparenthesized_form() {
    assert_eq!(tr("x = 1+2*3;"), Some("SET x to 1+2*3.".to_string()));
    assert_eq!(tr("x = 1 + 2 * 3;"), Some("SET x to 1+2*3.".to_string()));
}

#[test]
fn relational_operators_translate() {
    assert_eq!(tr("y = x == 5;"), Some("SET y to x=5.".to_string()));
    assert_eq!(tr("y = x != 5;"), Some("SET y to x<>5.".to_string()));
    assert_eq!(tr("y = x >= 5;"), Some("SET y to x>=5.".to_string()));
    assert_eq!(tr("y = x<=5;"), Some("SET y to x<=5.".to_string()));
}

#[test]
fn logical_operators_translate() {
    assert_eq!(tr("y = !x<1;"), Some("SET y to not x<1.".to_string()));
    assert_eq!(tr("y = a<1 && b<2;"), Some("SET y to a<1 and b<2.".to_string()));
    assert_eq!(tr("y = a<1 || b<2;"), Some("SET y to a<1 or b<2.".to_string()));
    assert_eq!(tr("y = a<1 and b<2 or c>3;"), Some("SET y to a<1 and b<2 or c>3.".to_string()));
}

#[test]
fn negation_of_brackets() {
    assert_eq!(tr("y = !(a);"), Some("SET y to not (a).".to_string()));
}

#[test]
fn while_loop_inverts_condition() {
    assert_eq!(
        tr("while x<10 { x = x+1; }"),
        Some("UNTIL not (x<10) {SET x to x+1.\n}".to_string())
    );
}

#[test]
fn for_loop_lowering() {
    assert_eq!(
        tr("for var i = 0; i<10; i = i+1 { print(i); }"),
        Some("FROM {DECLARE i TO 0.} UNTIL not(i<10) STEP {SET i to i+1.} DO {\nprint i.\n}"
            .to_string())
    );
}

#[test]
fn for_loop_body_on_new_line() {
    assert_eq!(
        tr("for var i = 0; i<3; i = i+1 {\nprint(i);\n}"),
        Some("FROM {DECLARE i TO 0.} UNTIL not(i<3) STEP {SET i to i+1.} DO {\nprint i.\n}"
            .to_string())
    );
}

#[test]
fn rendering_twice_is_identical() {
    let src = b"var a = 1;\nwhile a<3 { a = a+1; }";
    let (c, end) = compound(src, 0);
    assert_eq!(end, src.len());
    let first = c.generate_code();
    let second = c.generate_code();
    assert_eq!(first, second);
    assert_eq!(text(first), "DECLARE a TO 1.\nUNTIL not (a<3) {SET a to a+1.\n}");
}

#[test]
fn statements_keep_source_order() {
    assert_eq!(
        tr("var a;\nb = 2;\nprint(a);"),
        Some("DECLARE a TO 0.\nSET b to 2.\nprint a.".to_string())
    );
    assert_eq!(
        tr("print(a);\nb = 2;\nvar a;"),
        Some("print a.\nSET b to 2.\nDECLARE a TO 0.".to_string())
    );
}

#[test]
fn malformed_input_fails_whole_translation() {
    assert_eq!(tr("x = 5"), None);
    assert_eq!(tr("var a;\nx = 5"), None);
    assert_eq!(tr("while x<1 { x = 1;"), None);
    assert_eq!(tr("x = 1e;"), None);
}

#[test]
fn empty_input_translates_to_empty_text() {
    assert_eq!(tr(""), Some(String::new()));
}

#[test]
fn lock_keyword_is_assign() {
    assert_eq!(tr("assign x = 5;"), Some("LOCK x TO 5.".to_string()));
}

#[test]
fn print_joins_with_plus() {
    assert_eq!(tr("print(a, \"hi\", 3);"), Some("print a+\"hi\"+3.".to_string()));
    assert_eq!(tr("print();"), Some("print .".to_string()));
}

#[test]
fn dotted_path_and_call() {
    assert_eq!(tr("x = a.b.c;"), Some("SET x to a:b:c.".to_string()));
    assert_eq!(tr("x = f(1, 2);"), Some("SET x to f(1,2).".to_string()));
    assert_eq!(tr("x = f();"), Some("SET x to f().".to_string()));
}

#[test]
fn numbers_are_kept_as_written() {
    assert_eq!(tr("x = -1.5e3;"), Some("SET x to -1.5e3.".to_string()));
    assert_eq!(tr("x = .5;"), Some("SET x to .5.".to_string()));
    assert_eq!(number(b"12.5E+2;", 0), Some(7));
    assert_eq!(number(b"1.x", 0), Some(2));
    assert_eq!(number(b"1e", 0), None);
    assert_eq!(number(b"abc", 0), None);
}

#[test]
fn identifier_takes_letters_and_digits() {
    assert_eq!(identifier(b"abc1 d", 0), Some((b"abc1".to_vec(), 4)));
    assert_eq!(identifier(b"1abc", 0), None);
    assert_eq!(identifier(b" x", 1), Some((b"x".to_vec(), 2)));
}

#[test]
fn expression_layers() {
    assert_eq!(term(b"a + b*c - 2;", 0), Some((b"a+b*c-2".to_vec(), 11)));
    assert_eq!(relation(b"a+1 <> b", 0), Some((b"a+1<>b".to_vec(), 8)));
    assert_eq!(relation(b"x <> 5", 0), Some((b"x<>5".to_vec(), 6)));
    assert_eq!(relation(b"a+1 == b", 0), Some((b"a+1=b".to_vec(), 8)));
    assert_eq!(logic(b"a<1", 0), None);
    assert_eq!(logic(b"!a<1", 0), Some((b"not a<1".to_vec(), 4)));
    assert_eq!(expression(b"\"a b\"", 0), Some((b"\"a b\"".to_vec(), 5)));
    assert_eq!(struct_field(b"p.q", 0), Some((b"p:q".to_vec(), 3)));
    let (ps, end) = param_list(b"1 , x)", 0);
    assert_eq!(ps, vec![b"1".to_vec(), b"x".to_vec()]);
    assert_eq!(end, 5);
    let (ps, end) = param_list(b"  )", 0);
    assert!(ps.is_empty());
    assert_eq!(end, 2);
}

#[test]
fn statement_recognizers() {
    let (d, end) = variable_declare(b"var x = 2*y;", 0).unwrap();
    assert_eq!(end, 12);
    assert_eq!(text(d.generate_code()), "DECLARE x TO 2*y.");
    let (a, _) = variable_assign(b"x = y;", 0).unwrap();
    assert_eq!(text(a.generate_code()), "SET x to y.");
    let (l, _) = lock(b"assign x = y;", 0).unwrap();
    assert_eq!(text(l.generate_code()), "LOCK x TO y.");
    let (p, _) = print(b"print(1,2);", 0).unwrap();
    assert_eq!(text(p.generate_code()), "print 1+2.");
    let (w, _) = while_statement(b"while a<1 {}", 0).unwrap();
    assert_eq!(text(w.generate_code()), "UNTIL not (a<1) {\n}");
    let (f, _) = for_statement(b"for var i; i<2; i = i+1 {}", 0).unwrap();
    assert_eq!(
        text(f.generate_code()),
        "FROM {DECLARE i TO 0.} UNTIL not(i<2) STEP {SET i to i+1.} DO {\n\n}"
    );
    let (n, end) = statement(b"  x = 1;  ", 0).unwrap();
    assert_eq!(end, 10);
    assert_eq!(text(n.generate_code()), "SET x to 1.");
    assert!(variable_declare(b"varx;", 0).is_none());
    assert!(while_statement(b"while a<1{}", 0).is_none());
}

#[test]
fn nested_loops() {
    assert_eq!(
        tr("while a<2 { while b<3 { b = b+1; } a = a+1; }"),
        Some("UNTIL not (a<2) {UNTIL not (b<3) {SET b to b+1.\n}\nSET a to a+1.\n}".to_string())
    );
}

#[test]
fn while_loop_with_line_endings_around_braces() {
    assert_eq!(
        tr("while x<10 {\nx = x+1;\n}"),
        Some("UNTIL not (x<10) {SET x to x+1.\n}".to_string())
    );
    assert!(while_statement(b"while x<10 {\nx = x+1;\n}", 0).is_some());
}

#[test]
fn string_literal_is_an_atom() {
    assert_eq!(term(b"\"a\"+x", 0), Some((b"\"a\"+x".to_vec(), 5)));
    assert_eq!(tr("print(\"a\"+b);"), Some("print \"a\"+b.".to_string()));
}

#[test]
fn dotted_path_names_a_function() {
    assert_eq!(expression(b"a.b(1)", 0), Some((b"a:b(1)".to_vec(), 6)));
    assert_eq!(tr("x = io.read(f, 2);"), Some("SET x to io:read(f,2).".to_string()));
}

#[test]
fn failure_offset_is_where_parsing_stopped() {
    assert_eq!(parse_end(b"x = 1;\ny = 2"), 7);
    assert_eq!(parse_end(b"x = 1;"), 6);
    assert_eq!(tr("x = 1;\ny = 2"), None);
}
