use vstd::prelude::*;
use vstd::string::{is_ascii, is_ascii_spec_bytes, StringSliceAdditionalSpecFns};
use crate::expression::{
    logic_tail_rule, operand_rule, term_rule, brackets_rule, either, expression_rule, logic_op, logic_rule, not_rule, relation_op,
    relation_rule,
};
use crate::lex::{
    alnum_end, blank_end, byte_at, identifier_rule, is_alnum, is_alpha, AMPERSAND, BANG, BAR, EQUALS,
    CLOSE_BRACE, GREATER, LESS, OPEN_BRACE, SEMICOLON, SPACE,
};
use crate::statement::{
    binding_rule, for_code, for_rule, gap_end, while_code, while_rule, word_at,
    assign_rule, compound_rule, declare_code, declare_rule, lines, set_code, statement_rule,
    translation,
};

verus! {

/// `x` is an identifier: a letter, then letters and digits.
pub open spec fn is_identifier(x: Seq<u8>) -> bool {
    x.len() > 0 && is_alpha(x[0]) && forall|k: int| 1 <= k < x.len() ==> is_alnum(#[trigger] x[k])
}

proof fn lemma_keyword_bytes()
    ensures
        "var".spec_bytes() == seq![118u8, 97u8, 114u8],
        "assign".spec_bytes().len() == 6,
        "print".spec_bytes().len() == 5,
        "while".spec_bytes().len() == 5,
        "for".spec_bytes().len() == 3,
        "var ".spec_bytes() == seq![118u8, 97u8, 114u8, SPACE],
        " = ".spec_bytes() == seq![SPACE, EQUALS, SPACE],
        ";".spec_bytes() == seq![SEMICOLON],
{
    reveal_strlit("var");
    is_ascii_spec_bytes("var");
    assert(is_ascii("var"));
    assert("var".spec_bytes() =~= seq![118u8, 97u8, 114u8]);
    reveal_strlit("assign");
    is_ascii_spec_bytes("assign");
    assert(is_ascii("assign"));
    reveal_strlit("print");
    is_ascii_spec_bytes("print");
    assert(is_ascii("print"));
    reveal_strlit("while");
    is_ascii_spec_bytes("while");
    assert(is_ascii("while"));
    reveal_strlit("for");
    is_ascii_spec_bytes("for");
    assert(is_ascii("for"));
    reveal_strlit("var ");
    is_ascii_spec_bytes("var ");
    assert(is_ascii("var "));
    assert("var ".spec_bytes() =~= seq![118u8, 97u8, 114u8, SPACE]);
    reveal_strlit(" = ");
    is_ascii_spec_bytes(" = ");
    assert(is_ascii(" = "));
    assert(" = ".spec_bytes() =~= seq![SPACE, EQUALS, SPACE]);
    reveal_strlit(";");
    is_ascii_spec_bytes(";");
    assert(is_ascii(";"));
    assert(";".spec_bytes() =~= seq![SEMICOLON]);
}

proof fn lemma_alnum_run(s: Seq<u8>, k: int, e: int)
    requires
        0 <= k <= e <= s.len(),
        forall|m: int| k <= m < e ==> is_alnum(#[trigger] s[m]),
        e == s.len() || !is_alnum(s[e]),
    ensures
        alnum_end(s, k) == e,
    decreases e - k,
{
    if k < e {
        lemma_alnum_run(s, k + 1, e);
    }
}

/// Nothing is left to parse at the end of a text.
proof fn lemma_nothing_at_end(s: Seq<u8>)
    ensures
        compound_rule(s, s.len() as int) == (Seq::<Seq<u8>>::empty(), s.len() as int),
{
    lemma_keyword_bytes();
    assert(identifier_rule(s, s.len() as int) is None);
    assert(statement_rule(s, s.len() as int) is None);
}

/// A text that is one statement rendering to `c` translates to `c`.
proof fn lemma_single_statement(s: Seq<u8>, c: Seq<u8>)
    requires
        s.len() > 0,
        statement_rule(s, 0) == Some((c, s.len() as int)),
    ensures
        translation(s) == Some(c),
{
    lemma_nothing_at_end(s);
    assert(compound_rule(s, 0) == (seq![c], s.len() as int));
}

/// `var x;` translates to `DECLARE x TO 0.` for every identifier `x`.
pub proof fn lemma_declaration_defaults_to_zero(x: Seq<u8>)
    requires
        is_identifier(x),
    ensures
        translation("var ".spec_bytes() + x + ";".spec_bytes()) == Some(declare_code(x, None)),
{
    lemma_keyword_bytes();
    let s = "var ".spec_bytes() + x + ";".spec_bytes();
    let j = 4 + x.len() as int;
    assert(s.subrange(0, 3) =~= "var".spec_bytes());
    assert(blank_end(s, 4) == 4);
    assert(blank_end(s, 3) == 4);
    lemma_alnum_run(s, 5, j);
    assert(identifier_rule(s, 4) == Some(j));
    assert(blank_end(s, j) == j);
    assert(s.subrange(4, j) =~= x);
    assert(declare_rule(s, 0) == Some((declare_code(x, None), j + 1)));
    assert(blank_end(s, 0) == 0);
    assert(blank_end(s, j + 1) == j + 1);
    lemma_single_statement(s, declare_code(x, None));
}

/// `var x = v;` translates to `DECLARE x TO e.` for every identifier `x` and every
/// value `v` that is an expression rendering to `e`.
pub proof fn lemma_declaration_with_value(x: Seq<u8>, v: Seq<u8>, e: Seq<u8>)
    requires
        is_identifier(x),
        v.len() > 0,
        v[0] != SPACE && v[0] != 9,
        expression_rule("var ".spec_bytes() + x + " = ".spec_bytes() + v + ";".spec_bytes(),
            7 + x.len() as int) == Some((e, 7 + x.len() + v.len() as int)),
    ensures
        translation("var ".spec_bytes() + x + " = ".spec_bytes() + v + ";".spec_bytes())
            == Some(declare_code(x, Some(e))),
{
    lemma_keyword_bytes();
    let s = "var ".spec_bytes() + x + " = ".spec_bytes() + v + ";".spec_bytes();
    let j = 4 + x.len() as int;
    let n = 7 + x.len() as int + v.len() as int;
    assert(s.subrange(0, 3) =~= "var".spec_bytes());
    assert(blank_end(s, 4) == 4);
    assert(blank_end(s, 3) == 4);
    lemma_alnum_run(s, 5, j);
    assert(identifier_rule(s, 4) == Some(j));
    assert(blank_end(s, j + 1) == j + 1);
    assert(blank_end(s, j) == j + 1);
    assert(blank_end(s, j + 3) == j + 3);
    assert(blank_end(s, j + 2) == j + 3);
    assert(s.subrange(4, j) =~= x);
    assert(s[n] == SEMICOLON);
    assert(declare_rule(s, 0) == Some((declare_code(x, Some(e)), n + 1)));
    assert(blank_end(s, 0) == 0);
    assert(blank_end(s, n + 1) == n + 1);
    lemma_single_statement(s, declare_code(x, Some(e)));
}

/// `x = v;` translates to `SET x to e.` for every identifier `x` and every value
/// `v` that is an expression rendering to `e`.
pub proof fn lemma_assignment_renders_set(x: Seq<u8>, v: Seq<u8>, e: Seq<u8>)
    requires
        is_identifier(x),
        v.len() > 0,
        v[0] != SPACE && v[0] != 9,
        expression_rule(x + " = ".spec_bytes() + v + ";".spec_bytes(), 3 + x.len() as int)
            == Some((e, 3 + x.len() + v.len() as int)),
    ensures
        translation(x + " = ".spec_bytes() + v + ";".spec_bytes()) == Some(set_code(x, e)),
{
    lemma_keyword_bytes();
    let s = x + " = ".spec_bytes() + v + ";".spec_bytes();
    let j = x.len() as int;
    let n = 3 + x.len() as int + v.len() as int;
    lemma_alnum_run(s, 1, j);
    assert(identifier_rule(s, 0) == Some(j));
    assert(blank_end(s, j + 1) == j + 1);
    assert(blank_end(s, j) == j + 1);
    assert(blank_end(s, j + 3) == j + 3);
    assert(blank_end(s, j + 2) == j + 3);
    assert(s.subrange(0, j) =~= x);
    assert(s[n] == SEMICOLON);
    assert(assign_rule(s, 0) == Some((set_code(x, e), n + 1)));
    if j == 3 {
        assert(blank_end(s, 4) == 4);
        assert(identifier_rule(s, 4) is None);
    } else if j > 3 {
        assert(blank_end(s, 3) == 3);
    } else {
        assert(s.subrange(0, 3)[j] == SPACE);
        assert(s.subrange(0, 3) != "var".spec_bytes());
    }
    assert(declare_rule(s, 0) is None);
    assert(blank_end(s, 0) == 0);
    assert(blank_end(s, n + 1) == n + 1);
    lemma_single_statement(s, set_code(x, e));
}

/// Comparison operators translate on their way out: `==` becomes `=`, `!=`
/// becomes `<>`, and `>=`, `<=`, `<>`, `<`, `>` stay as they are.
pub proof fn lemma_relational_translation(s: Seq<u8>, k: int)
    ensures
        byte_at(s, k, EQUALS) && byte_at(s, k + 1, EQUALS) ==> relation_op(s, k) == Some(
            ("=".spec_bytes(), 2int),
        ),
        byte_at(s, k, BANG) && byte_at(s, k + 1, EQUALS) ==> relation_op(s, k) == Some(
            ("<>".spec_bytes(), 2int),
        ),
        byte_at(s, k, GREATER) && byte_at(s, k + 1, EQUALS) ==> relation_op(s, k) == Some(
            (">=".spec_bytes(), 2int),
        ),
        byte_at(s, k, LESS) && byte_at(s, k + 1, EQUALS) ==> relation_op(s, k) == Some(
            ("<=".spec_bytes(), 2int),
        ),
        byte_at(s, k, LESS) && byte_at(s, k + 1, GREATER) ==> relation_op(s, k) == Some(
            ("<>".spec_bytes(), 2int),
        ),
        byte_at(s, k, LESS) && !byte_at(s, k + 1, EQUALS) && !byte_at(s, k + 1, GREATER)
            ==> relation_op(s, k) == Some(("<".spec_bytes(), 1int)),
        byte_at(s, k, GREATER) && !byte_at(s, k + 1, EQUALS) ==> relation_op(s, k) == Some(
            (">".spec_bytes(), 1int),
        ),
{
}

/// Logical operators translate to words: `&&` to `and`, `||` to `or`; and `!`
/// before an operand renders as `not ` before its rendering.
pub proof fn lemma_logical_translation(s: Seq<u8>, k: int)
    ensures
        byte_at(s, k, AMPERSAND) && byte_at(s, k + 1, AMPERSAND) ==> logic_op(s, k) == Some(
            ("and".spec_bytes(), 2int),
        ),
        byte_at(s, k, BAR) && byte_at(s, k + 1, BAR) ==> logic_op(s, k) == Some(
            ("or".spec_bytes(), 2int),
        ),
        byte_at(s, k, BANG) ==> not_rule(s, k) == match either(
            logic_rule(s, k + 1),
            either(relation_rule(s, k + 1), brackets_rule(s, k + 1)),
        ) {
            Some((x, j)) => Some(("not ".spec_bytes() + x, j)),
            None => None,
        },
{
}

/// `var x;` followed by any text is a declaration of `x` with no value, which
/// renders as `DECLARE x TO 0.`, for every identifier `x`.
pub proof fn lemma_declaration_then_rest(x: Seq<u8>, rest: Seq<u8>)
    requires
        is_identifier(x),
    ensures
        declare_rule("var ".spec_bytes() + x + ";".spec_bytes() + rest, 0) == Some(
            (declare_code(x, None), 5 + x.len() as int),
        ),
{
    lemma_keyword_bytes();
    let s = "var ".spec_bytes() + x + ";".spec_bytes() + rest;
    let j = 4 + x.len() as int;
    assert(s.subrange(0, 3) =~= "var".spec_bytes());
    assert(blank_end(s, 4) == 4);
    assert(blank_end(s, 3) == 4);
    lemma_alnum_run(s, 5, j);
    assert(identifier_rule(s, 4) == Some(j));
    assert(blank_end(s, j) == j);
    assert(s.subrange(4, j) =~= x);
}

/// `var x = v;` or `var x=v;`, followed by any text, declares `x` with the
/// rendering `e` of the expression `v`: `DECLARE x TO e.`
pub proof fn lemma_declaration_with_value_then_rest(
    x: Seq<u8>,
    eq: Seq<u8>,
    v: Seq<u8>,
    e: Seq<u8>,
    rest: Seq<u8>,
)
    requires
        is_identifier(x),
        eq == seq![SPACE, EQUALS, SPACE] || eq == seq![EQUALS],
        v.len() > 0,
        v[0] != SPACE && v[0] != 9,
        expression_rule("var ".spec_bytes() + x + eq + v + ";".spec_bytes() + rest,
            4 + x.len() + eq.len() as int) == Some((e, 4 + x.len() + eq.len() + v.len() as int)),
    ensures
        declare_rule("var ".spec_bytes() + x + eq + v + ";".spec_bytes() + rest, 0) == Some(
            (declare_code(x, Some(e)), 5 + x.len() + eq.len() + v.len() as int),
        ),
{
    lemma_keyword_bytes();
    let s = "var ".spec_bytes() + x + eq + v + ";".spec_bytes() + rest;
    let j = 4 + x.len() as int;
    let m = j + eq.len() as int;
    let n = m + v.len() as int;
    assert(s.subrange(0, 3) =~= "var".spec_bytes());
    assert(blank_end(s, 4) == 4);
    assert(blank_end(s, 3) == 4);
    lemma_alnum_run(s, 5, j);
    assert(identifier_rule(s, 4) == Some(j));
    assert(blank_end(s, m) == m);
    if eq.len() == 3 {
        assert(blank_end(s, j + 1) == j + 1);
        assert(blank_end(s, j) == j + 1);
        assert(blank_end(s, j + 2) == m);
    } else {
        assert(blank_end(s, j) == j);
    }
    assert(s.subrange(4, j) =~= x);
    assert(s[n] == SEMICOLON);
}

/// `x = v;` or `x=v;`, followed by any text, assigns to `x` the rendering `e` of
/// the expression `v`: `SET x to e.`
pub proof fn lemma_assignment_then_rest(
    x: Seq<u8>,
    eq: Seq<u8>,
    v: Seq<u8>,
    e: Seq<u8>,
    rest: Seq<u8>,
)
    requires
        is_identifier(x),
        eq == seq![SPACE, EQUALS, SPACE] || eq == seq![EQUALS],
        v.len() > 0,
        v[0] != SPACE && v[0] != 9,
        expression_rule(x + eq + v + ";".spec_bytes() + rest, x.len() + eq.len() as int) == Some(
            (e, x.len() + eq.len() + v.len() as int),
        ),
    ensures
        assign_rule(x + eq + v + ";".spec_bytes() + rest, 0) == Some(
            (set_code(x, e), 1 + x.len() + eq.len() + v.len() as int),
        ),
{
    lemma_keyword_bytes();
    let s = x + eq + v + ";".spec_bytes() + rest;
    let j = x.len() as int;
    let m = j + eq.len() as int;
    let n = m + v.len() as int;
    lemma_alnum_run(s, 1, j);
    assert(identifier_rule(s, 0) == Some(j));
    assert(blank_end(s, m) == m);
    if eq.len() == 3 {
        assert(blank_end(s, j + 1) == j + 1);
        assert(blank_end(s, j) == j + 1);
        assert(blank_end(s, j + 2) == m);
    } else {
        assert(blank_end(s, j) == j);
    }
    assert(s.subrange(0, j) =~= x);
    assert(s[n] == SEMICOLON);
}

/// A comparison renders as its left term, its operator as `relation_op` translates
/// it, and its right term, with nothing between them.
pub proof fn lemma_comparison_renders(
    s: Seq<u8>,
    i: int,
    l: Seq<u8>,
    j: int,
    op: Seq<u8>,
    w: int,
    r: Seq<u8>,
    n: int,
)
    requires
        term_rule(s, i) == Some((l, j)),
        relation_op(s, blank_end(s, j)) == Some((op, w)),
        i < blank_end(s, blank_end(s, j) + w) <= s.len(),
        term_rule(s, blank_end(s, blank_end(s, j) + w)) == Some((r, n)),
    ensures
        relation_rule(s, i) == Some((l + op + r, n)),
{
}

/// Logical operands fold left to right: after operands rendering to `acc`, an
/// operator word `op` and an operand rendering to `x` give `acc op x`, with one
/// space on each side of the translated operator.
pub proof fn lemma_logic_fold_step(
    s: Seq<u8>,
    j: int,
    acc: Seq<u8>,
    op: Seq<u8>,
    w: int,
    x: Seq<u8>,
    n: int,
)
    requires
        logic_op(s, blank_end(s, j)) == Some((op, w)),
        j < blank_end(s, blank_end(s, j) + w) <= s.len(),
        operand_rule(s, blank_end(s, blank_end(s, j) + w)) == Some((x, n)),
        j < n <= s.len(),
    ensures
        logic_tail_rule(s, j, acc) == logic_tail_rule(
            s,
            n,
            acc + seq![SPACE] + op + seq![SPACE] + x,
        ),
{
}

/// A while loop renders with its condition negated: `UNTIL not (c) {` before the
/// body's lines and `\n}` after them.
pub proof fn lemma_while_negates(s: Seq<u8>, i: int, c: Seq<u8>, j: int, body: Seq<Seq<u8>>, n: int)
    requires
        word_at(s, i, "while".spec_bytes()),
        blank_end(s, i + 5) > i + 5,
        expression_rule(s, blank_end(s, i + 5)) == Some((c, j)),
        blank_end(s, j) > j,
        byte_at(s, blank_end(s, j), OPEN_BRACE),
        i < gap_end(s, blank_end(s, j) + 1) <= s.len(),
        compound_rule(s, gap_end(s, blank_end(s, j) + 1)) == (body, n),
        byte_at(s, gap_end(s, n), CLOSE_BRACE),
    ensures
        while_rule(s, i) == Some((while_code(c, lines(body)), gap_end(s, n) + 1)),
        while_code(c, lines(body)) == "UNTIL not (".spec_bytes() + c + ") {".spec_bytes()
            + lines(body) + "\n}".spec_bytes(),
{
    lemma_keyword_bytes();
}

/// A for loop renders as `FROM {init} UNTIL not(c) STEP {SET id to e.} DO {\n`,
/// the body's lines, and `\n}`: the step is an assignment and the condition is
/// negated.
pub proof fn lemma_for_lowering(
    s: Seq<u8>,
    i: int,
    d: Seq<u8>,
    j: int,
    c: Seq<u8>,
    k: int,
    id: Seq<u8>,
    e: Seq<u8>,
    r: int,
    body: Seq<Seq<u8>>,
    v: int,
)
    requires
        word_at(s, i, "for".spec_bytes()),
        declare_rule(s, blank_end(s, i + 3)) == Some((d, j)),
        either(logic_rule(s, blank_end(s, j)), relation_rule(s, blank_end(s, j))) == Some((c, k)),
        byte_at(s, k, SEMICOLON),
        binding_rule(s, blank_end(s, k + 1)) == Some((id, e, r)),
        blank_end(s, r) > r,
        byte_at(s, blank_end(s, r), OPEN_BRACE),
        i < gap_end(s, blank_end(s, r) + 1) <= s.len(),
        compound_rule(s, gap_end(s, blank_end(s, r) + 1)) == (body, v),
        byte_at(s, gap_end(s, v), CLOSE_BRACE),
    ensures
        for_rule(s, i) == Some(
            (for_code(d, c, set_code(id, e), lines(body)), gap_end(s, v) + 1),
        ),
{
    lemma_keyword_bytes();
}

} // verus!
