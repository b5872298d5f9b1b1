use vstd::prelude::*;
use vstd::string::StringSliceAdditionalSpecFns;
use crate::lex::{
    blank_end, byte_at, concat, copy_range, has_byte, identifier, identifier_rule, skip_blanks, text,
    AMPERSAND, BANG, BAR, CARET, CLOSE_PAREN, COLON, COMMA, DOT, EQUALS, GREATER, LESS, LOWER_A,
    LOWER_D, LOWER_N, LOWER_O, LOWER_R, MINUS, push_all, OPEN_PAREN, PLUS, QUOTE, SLASH, SPACE, STAR,
};
use crate::number::{number, number_rule};

verus! {

/// A parsed piece of text and the position after it.
pub type Parsed = Option<(Seq<u8>, int)>;

/// An expression, rendered in the target dialect.
pub type Expression = Vec<u8>;

/// The executable result `r` is the parse `g`.
pub open spec fn same(r: Option<(Vec<u8>, usize)>, g: Parsed) -> bool {
    match r {
        Some((v, j)) => g == Some((v@, j as int)),
        None => g is None,
    }
}

/// `a` where it parsed, else `b`: ordered choice.
pub open spec fn either(a: Parsed, b: Parsed) -> Parsed {
    if a is Some {
        a
    } else {
        b
    }
}

/// `j` moved past `i` and stays within `s`.
pub open spec fn ahead(s: Seq<u8>, i: int, j: int) -> bool {
    i < j <= s.len()
}

/// `j` lies between `i` and the end of `s`.
pub open spec fn within(s: Seq<u8>, i: int, j: int) -> bool {
    i <= j <= s.len()
}

pub open spec fn one(b: u8) -> Seq<u8> {
    seq![b]
}

/// The parts joined with the byte `sep` between them.
pub open spec fn join(parts: Seq<Seq<u8>>, sep: u8) -> Seq<u8>
    decreases parts.len(),
{
    if parts.len() == 0 {
        Seq::empty()
    } else if parts.len() == 1 {
        parts[0]
    } else {
        join(parts.drop_last(), sep) + one(sep) + parts.last()
    }
}

/// The position of the first `"` at or after `j`.
pub open spec fn quote_from(s: Seq<u8>, j: int) -> Option<int>
    decreases s.len() - j,
{
    if 0 <= j < s.len() {
        if s[j] == QUOTE {
            Some(j)
        } else {
            quote_from(s, j + 1)
        }
    } else {
        None
    }
}

/// A string literal, kept as written with its quotes.
pub open spec fn string_rule(s: Seq<u8>, i: int) -> Parsed {
    if byte_at(s, i, QUOTE) {
        match quote_from(s, i + 1) {
            Some(k) => Some((s.subrange(i, k + 1), k + 1)),
            None => None,
        }
    } else {
        None
    }
}

/// The rest of a dotted path after `j`, each `.name` rendered as `:name`.
pub open spec fn field_tail_rule(s: Seq<u8>, j: int, acc: Seq<u8>) -> (Seq<u8>, int)
    decreases s.len() - j,
{
    if byte_at(s, j, DOT) {
        match identifier_rule(s, j + 1) {
            Some(k) => if ahead(s, j, k) {
                field_tail_rule(s, k, acc + one(COLON) + s.subrange(j + 1, k))
            } else {
                (acc, j)
            },
            None => (acc, j),
        }
    } else {
        (acc, j)
    }
}

/// A dotted path of identifiers, rendered with `:` between them.
pub open spec fn struct_field_rule(s: Seq<u8>, i: int) -> Parsed {
    match identifier_rule(s, i) {
        Some(j) => if within(s, i, j) {
            Some(field_tail_rule(s, j, s.subrange(i, j)))
        } else {
            None
        },
        None => None,
    }
}

/// A relational operator at `k`, rendered, with its width in the source.
pub open spec fn relation_op(s: Seq<u8>, k: int) -> Option<(Seq<u8>, int)> {
    if byte_at(s, k, LESS) && byte_at(s, k + 1, EQUALS) {
        Some(("<=".spec_bytes(), 2))
    } else if byte_at(s, k, GREATER) && byte_at(s, k + 1, EQUALS) {
        Some((">=".spec_bytes(), 2))
    } else if byte_at(s, k, LESS) && byte_at(s, k + 1, GREATER) {
        Some(("<>".spec_bytes(), 2))
    } else if byte_at(s, k, LESS) {
        Some(("<".spec_bytes(), 1))
    } else if byte_at(s, k, GREATER) {
        Some((">".spec_bytes(), 1))
    } else if byte_at(s, k, EQUALS) && byte_at(s, k + 1, EQUALS) {
        Some(("=".spec_bytes(), 2))
    } else if byte_at(s, k, BANG) && byte_at(s, k + 1, EQUALS) {
        Some(("<>".spec_bytes(), 2))
    } else {
        None
    }
}

/// A logical operator at `k`, rendered as a word, with its width in the source.
pub open spec fn logic_op(s: Seq<u8>, k: int) -> Option<(Seq<u8>, int)> {
    if byte_at(s, k, LOWER_A) && byte_at(s, k + 1, LOWER_N) && byte_at(s, k + 2, LOWER_D) {
        Some(("and".spec_bytes(), 3))
    } else if byte_at(s, k, AMPERSAND) && byte_at(s, k + 1, AMPERSAND) {
        Some(("and".spec_bytes(), 2))
    } else if byte_at(s, k, LOWER_O) && byte_at(s, k + 1, LOWER_R) {
        Some(("or".spec_bytes(), 2))
    } else if byte_at(s, k, BAR) && byte_at(s, k + 1, BAR) {
        Some(("or".spec_bytes(), 2))
    } else {
        None
    }
}

pub open spec fn is_mul_op(b: u8) -> bool {
    b == STAR || b == SLASH || b == CARET
}

pub open spec fn is_add_op(b: u8) -> bool {
    b == PLUS || b == MINUS
}

/// `( expression )`.
pub open spec fn brackets_rule(s: Seq<u8>, i: int) -> Parsed
    decreases s.len() - i, 1nat,
{
    if byte_at(s, i, OPEN_PAREN) {
        match expression_rule(s, i + 1) {
            Some((e, j)) => if byte_at(s, j, CLOSE_PAREN) {
                Some((one(OPEN_PAREN) + e + one(CLOSE_PAREN), j + 1))
            } else {
                None
            },
            None => None,
        }
    } else {
        None
    }
}

/// The parameters after the first, each after a comma.
pub open spec fn params_tail_rule(s: Seq<u8>, j: int, acc: Seq<Seq<u8>>) -> (Seq<Seq<u8>>, int)
    decreases s.len() - j, 21nat,
{
    let k = blank_end(s, j);
    if byte_at(s, k, COMMA) {
        let m = blank_end(s, k + 1);
        if ahead(s, j, m) {
            match expression_rule(s, m) {
                Some((e, n)) => if ahead(s, j, n) {
                    params_tail_rule(s, n, acc.push(e))
                } else {
                    (acc, j)
                },
                None => (acc, j),
            }
        } else {
            (acc, j)
        }
    } else {
        (acc, j)
    }
}

/// Expressions separated by commas, or no expression at all.
pub open spec fn params_rule(s: Seq<u8>, i: int) -> (Seq<Seq<u8>>, int)
    decreases s.len() - i, 22nat,
{
    match expression_rule(s, i) {
        Some((e, j)) => if within(s, i, j) {
            params_tail_rule(s, j, seq![e])
        } else {
            (Seq::empty(), blank_end(s, i))
        },
        None => (Seq::empty(), blank_end(s, i)),
    }
}

/// `name(parameters)`, where the name is an identifier or a dotted path (rendered
/// with `:`), the parameters joined by commas.
pub open spec fn call_rule(s: Seq<u8>, i: int) -> Parsed
    decreases s.len() - i, 7nat,
{
    match struct_field_rule(s, i) {
        Some((name, j)) => if byte_at(s, j, OPEN_PAREN) && i < j {
            let (ps, k) = params_rule(s, j + 1);
            if byte_at(s, k, CLOSE_PAREN) {
                Some((name + one(OPEN_PAREN) + join(ps, COMMA) + one(CLOSE_PAREN), k + 1))
            } else {
                None
            }
        } else {
            None
        },
        None => None,
    }
}

/// The operand of the arithmetic operators.
pub open spec fn atom_rule(s: Seq<u8>, i: int) -> Parsed
    decreases s.len() - i, 8nat,
{
    either(brackets_rule(s, i), either(string_rule(s, i), either(call_rule(s, i),
        either(struct_field_rule(s, i), either(
            match number_rule(s, i) {
                Some(j) => if within(s, i, j) {
                    Some((s.subrange(i, j), j))
                } else {
                    None
                },
                None => None,
            },
            match identifier_rule(s, i) {
                Some(j) => if within(s, i, j) {
                    Some((s.subrange(i, j), j))
                } else {
                    None
                },
                None => None,
            },
        )))))
}

/// Further `* / ^` operands after `j`, appended with their operators.
pub open spec fn mul_tail_rule(s: Seq<u8>, j: int, acc: Seq<u8>) -> (Seq<u8>, int)
    decreases s.len() - j, 9nat,
{
    let k = blank_end(s, j);
    if 0 <= k < s.len() && is_mul_op(s[k]) {
        let m = blank_end(s, k + 1);
        if ahead(s, j, m) {
            match atom_rule(s, m) {
                Some((b, n)) => if ahead(s, j, n) {
                    mul_tail_rule(s, n, acc + one(s[k]) + b)
                } else {
                    (acc, j)
                },
                None => (acc, j),
            }
        } else {
            (acc, j)
        }
    } else {
        (acc, j)
    }
}

/// Operands joined by `* / ^`, left to right.
pub open spec fn factor_rule(s: Seq<u8>, i: int) -> Parsed
    decreases s.len() - i, 10nat,
{
    match atom_rule(s, i) {
        Some((a, j)) => if within(s, i, j) {
            Some(mul_tail_rule(s, j, a))
        } else {
            None
        },
        None => None,
    }
}

/// Further `+ -` operands after `j`, appended with their operators.
pub open spec fn add_tail_rule(s: Seq<u8>, j: int, acc: Seq<u8>) -> (Seq<u8>, int)
    decreases s.len() - j, 11nat,
{
    let k = blank_end(s, j);
    if 0 <= k < s.len() && is_add_op(s[k]) {
        let m = blank_end(s, k + 1);
        if ahead(s, j, m) {
            match factor_rule(s, m) {
                Some((b, n)) => if ahead(s, j, n) {
                    add_tail_rule(s, n, acc + one(s[k]) + b)
                } else {
                    (acc, j)
                },
                None => (acc, j),
            }
        } else {
            (acc, j)
        }
    } else {
        (acc, j)
    }
}

/// Factors joined by `+ -`, left to right.
pub open spec fn term_rule(s: Seq<u8>, i: int) -> Parsed
    decreases s.len() - i, 12nat,
{
    match factor_rule(s, i) {
        Some((a, j)) => if within(s, i, j) {
            Some(add_tail_rule(s, j, a))
        } else {
            None
        },
        None => None,
    }
}

/// One comparison of two terms.
pub open spec fn relation_rule(s: Seq<u8>, i: int) -> Parsed
    decreases s.len() - i, 14nat,
{
    match term_rule(s, i) {
        Some((l, j)) => {
            let k = blank_end(s, j);
            match relation_op(s, k) {
                Some((op, w)) => {
                    let m = blank_end(s, k + w);
                    if ahead(s, i, m) {
                        match term_rule(s, m) {
                            Some((r, n)) => Some((l + op + r, n)),
                            None => None,
                        }
                    } else {
                        None
                    }
                },
                None => None,
            }
        },
        None => None,
    }
}

/// `!` before a logical expression, a comparison or brackets.
pub open spec fn not_rule(s: Seq<u8>, i: int) -> Parsed
    decreases s.len() - i, 15nat,
{
    if byte_at(s, i, BANG) {
        match either(logic_rule(s, i + 1), either(relation_rule(s, i + 1), brackets_rule(s, i + 1))) {
            Some((x, j)) => Some(("not ".spec_bytes() + x, j)),
            None => None,
        }
    } else {
        None
    }
}

/// An operand of the logical operators.
pub open spec fn operand_rule(s: Seq<u8>, i: int) -> Parsed
    decreases s.len() - i, 16nat,
{
    either(not_rule(s, i), relation_rule(s, i))
}

/// Further logical operands after `j`, each after its operator word.
pub open spec fn logic_tail_rule(s: Seq<u8>, j: int, acc: Seq<u8>) -> (Seq<u8>, int)
    decreases s.len() - j, 17nat,
{
    let k = blank_end(s, j);
    match logic_op(s, k) {
        Some((op, w)) => {
            let m = blank_end(s, k + w);
            if ahead(s, j, m) {
                match operand_rule(s, m) {
                    Some((x, n)) => if ahead(s, j, n) {
                        logic_tail_rule(s, n, acc + one(SPACE) + op + one(SPACE) + x)
                    } else {
                        (acc, j)
                    },
                    None => (acc, j),
                }
            } else {
                (acc, j)
            }
        },
        None => (acc, j),
    }
}

/// Operands joined by at least one logical operator, or a lone negation.
pub open spec fn logic_rule(s: Seq<u8>, i: int) -> Parsed
    decreases s.len() - i, 18nat,
{
    match operand_rule(s, i) {
        Some((a, j)) => if within(s, i, j) {
            let (t, e) = logic_tail_rule(s, j, a);
            if e != j {
                Some((t, e))
            } else {
                not_rule(s, i)
            }
        } else {
            not_rule(s, i)
        },
        None => not_rule(s, i),
    }
}

/// Any expression: the first of these forms that matches.
pub open spec fn expression_rule(s: Seq<u8>, i: int) -> Parsed
    decreases s.len() - i, 20nat,
{
    either(logic_rule(s, i), either(relation_rule(s, i), either(term_rule(s, i),
        either(factor_rule(s, i), either(call_rule(s, i), either(struct_field_rule(s, i),
        either(brackets_rule(s, i), string_rule(s, i))))))))
}

/// The views of a list of byte vectors.
pub open spec fn views(v: Seq<Vec<u8>>) -> Seq<Seq<u8>> {
    v.map_values(|x: Vec<u8>| x@)
}

/// The result `r` is a parse that ends between `i` and the end of `s`.
pub open spec fn bounded(r: Option<(Vec<u8>, usize)>, s: Seq<u8>, i: int) -> bool {
    r matches Some((_, j)) ==> i <= j <= s.len()
}

fn single(b: u8) -> (r: Vec<u8>)
    ensures
        r@ == one(b),
{
    let mut r: Vec<u8> = Vec::new();
    r.push(b);
    assert(r@ =~= one(b));
    r
}

/// The parts joined with `sep` between them.
pub fn join_with(parts: &Vec<Vec<u8>>, sep: u8) -> (r: Vec<u8>)
    ensures
        r@ == join(views(parts@), sep),
{
    let mut r: Vec<u8> = Vec::new();
    let mut k: usize = 0;
    while k < parts.len()
        invariant
            k <= parts@.len(),
            r@ == join(views(parts@.subrange(0, k as int)), sep),
        decreases parts@.len() - k,
    {
        let ghost before = views(parts@.subrange(0, k as int));
        let ghost after = views(parts@.subrange(0, k + 1));
        assert(after.drop_last() =~= before);
        assert(after.last() == parts@[k as int]@);
        if k > 0 {
            r.push(sep);
        } else {
            assert(before =~= Seq::<Seq<u8>>::empty());
        }
        push_all(&mut r, &parts[k]);
        k = k + 1;
        assert(r@ =~= join(after, sep));
    }
    assert(parts@.subrange(0, parts@.len() as int) =~= parts@);
    r
}

/// Recognizes a string literal at `i`, quotes included.
pub fn string_literal(s: &[u8], i: usize) -> (r: Option<(Vec<u8>, usize)>)
    requires
        i <= s@.len(),
    ensures
        same(r, string_rule(s@, i as int)),
        bounded(r, s@, i as int),
{
    if has_byte(s, i, QUOTE) {
        let mut k: usize = i + 1;
        while k < s.len() && s[k] != QUOTE
            invariant
                i < k <= s@.len(),
                quote_from(s@, k as int) == quote_from(s@, i + 1),
            decreases s@.len() - k,
        {
            k = k + 1;
        }
        if k < s.len() {
            Some((copy_range(s, i, k + 1), k + 1))
        } else {
            None
        }
    } else {
        None
    }
}

fn field_tail(s: &[u8], j: usize, acc: Vec<u8>) -> (r: (Vec<u8>, usize))
    requires
        j <= s@.len(),
    ensures
        (r.0@, r.1 as int) == field_tail_rule(s@, j as int, acc@),
        j <= r.1 <= s@.len(),
    decreases s@.len() - j,
{
    if has_byte(s, j, DOT) {
        match identifier(s, j + 1) {
            Some((id, k)) => {
                let acc = concat(concat(acc, single(COLON)), id);
                field_tail(s, k, acc)
            },
            None => (acc, j),
        }
    } else {
        (acc, j)
    }
}

/// Recognizes a dotted path of identifiers at `i`; renders it with `:` as the
/// separator.
pub fn struct_field(s: &[u8], i: usize) -> (r: Option<(Vec<u8>, usize)>)
    requires
        i <= s@.len(),
    ensures
        same(r, struct_field_rule(s@, i as int)),
        bounded(r, s@, i as int),
{
    match identifier(s, i) {
        Some((id, j)) => Some(field_tail(s, j, id)),
        None => None,
    }
}

fn relation_operator(s: &[u8], k: usize) -> (r: Option<(Vec<u8>, usize)>)
    requires
        k <= s@.len(),
    ensures
        match r {
            Some((v, w)) => relation_op(s@, k as int) == Some((v@, w as int)),
            None => relation_op(s@, k as int) is None,
        },
{
    let next = k < s.len() && has_byte(s, k + 1, EQUALS);
    if has_byte(s, k, LESS) && next {
        Some((text("<="), 2))
    } else if has_byte(s, k, GREATER) && next {
        Some((text(">="), 2))
    } else if has_byte(s, k, LESS) && k < s.len() && has_byte(s, k + 1, GREATER) {
        Some((text("<>"), 2))
    } else if has_byte(s, k, LESS) {
        Some((text("<"), 1))
    } else if has_byte(s, k, GREATER) {
        Some((text(">"), 1))
    } else if has_byte(s, k, EQUALS) && next {
        Some((text("="), 2))
    } else if has_byte(s, k, BANG) && next {
        Some((text("<>"), 2))
    } else {
        None
    }
}

fn logic_operator(s: &[u8], k: usize) -> (r: Option<(Vec<u8>, usize)>)
    requires
        k <= s@.len(),
    ensures
        match r {
            Some((v, w)) => logic_op(s@, k as int) == Some((v@, w as int)),
            None => logic_op(s@, k as int) is None,
        },
{
    if has_byte(s, k, LOWER_A) && has_byte(s, k + 1, LOWER_N) && has_byte(s, k + 2, LOWER_D) {
        Some((text("and"), 3))
    } else if has_byte(s, k, AMPERSAND) && has_byte(s, k + 1, AMPERSAND) {
        Some((text("and"), 2))
    } else if has_byte(s, k, LOWER_O) && has_byte(s, k + 1, LOWER_R) {
        Some((text("or"), 2))
    } else if has_byte(s, k, BAR) && has_byte(s, k + 1, BAR) {
        Some((text("or"), 2))
    } else {
        None
    }
}

fn brackets(s: &[u8], i: usize) -> (r: Option<(Vec<u8>, usize)>)
    requires
        i <= s@.len(),
    ensures
        same(r, brackets_rule(s@, i as int)),
        bounded(r, s@, i as int),
    decreases s@.len() - i, 1nat,
{
    if has_byte(s, i, OPEN_PAREN) {
        match expression(s, i + 1) {
            Some((e, j)) => if has_byte(s, j, CLOSE_PAREN) {
                Some((concat(concat(single(OPEN_PAREN), e), single(CLOSE_PAREN)), j + 1))
            } else {
                None
            },
            None => None,
        }
    } else {
        None
    }
}

fn param_tail(s: &[u8], j: usize, acc: Vec<Vec<u8>>) -> (r: (Vec<Vec<u8>>, usize))
    requires
        j <= s@.len(),
    ensures
        (views(r.0@), r.1 as int) == params_tail_rule(s@, j as int, views(acc@)),
        j <= r.1 <= s@.len(),
    decreases s@.len() - j, 21nat,
{
    let k = skip_blanks(s, j);
    if has_byte(s, k, COMMA) {
        let m = skip_blanks(s, k + 1);
        match expression(s, m) {
            Some((e, n)) => {
                let ghost ev = e@;
                let mut acc = acc;
                let ghost before = views(acc@);
                acc.push(e);
                assert(views(acc@) =~= before.push(ev));
                param_tail(s, n, acc)
            },
            None => (acc, j),
        }
    } else {
        (acc, j)
    }
}

/// Recognizes a parameter list at `i`: expressions separated by commas, with
/// blanks allowed around the commas, or no expression at all.
pub fn param_list(s: &[u8], i: usize) -> (r: (Vec<Expression>, usize))
    requires
        i <= s@.len(),
    ensures
        (views(r.0@), r.1 as int) == params_rule(s@, i as int),
        i <= r.1 <= s@.len(),
    decreases s@.len() - i, 22nat,
{
    match expression(s, i) {
        Some((e, j)) => {
            let ghost ev = e@;
            let mut acc: Vec<Vec<u8>> = Vec::new();
            acc.push(e);
            assert(views(acc@) =~= seq![ev]);
            param_tail(s, j, acc)
        },
        None => (Vec::new(), skip_blanks(s, i)),
    }
}

fn function_call(s: &[u8], i: usize) -> (r: Option<(Vec<u8>, usize)>)
    requires
        i <= s@.len(),
    ensures
        same(r, call_rule(s@, i as int)),
        bounded(r, s@, i as int),
    decreases s@.len() - i, 7nat,
{
    match struct_field(s, i) {
        Some((name, j)) => if has_byte(s, j, OPEN_PAREN) && i < j {
            let (ps, k) = param_list(s, j + 1);
            if has_byte(s, k, CLOSE_PAREN) {
                let out = concat(concat(concat(name, single(OPEN_PAREN)), join_with(&ps, COMMA)),
                    single(CLOSE_PAREN));
                Some((out, k + 1))
            } else {
                None
            }
        } else {
            None
        },
        None => None,
    }
}

fn atom(s: &[u8], i: usize) -> (r: Option<(Vec<u8>, usize)>)
    requires
        i <= s@.len(),
    ensures
        same(r, atom_rule(s@, i as int)),
        bounded(r, s@, i as int),
    decreases s@.len() - i, 8nat,
{
    let r = brackets(s, i);
    if r.is_some() {
        return r;
    }
    let r = string_literal(s, i);
    if r.is_some() {
        return r;
    }
    let r = function_call(s, i);
    if r.is_some() {
        return r;
    }
    let r = struct_field(s, i);
    if r.is_some() {
        return r;
    }
    match number(s, i) {
        Some(j) => if i <= j && j <= s.len() {
            return Some((copy_range(s, i, j), j));
        },
        None => {},
    }
    match identifier(s, i) {
        Some((id, j)) => Some((id, j)),
        None => None,
    }
}

fn mul_tail(s: &[u8], j: usize, acc: Vec<u8>) -> (r: (Vec<u8>, usize))
    requires
        j <= s@.len(),
    ensures
        (r.0@, r.1 as int) == mul_tail_rule(s@, j as int, acc@),
        j <= r.1 <= s@.len(),
    decreases s@.len() - j, 9nat,
{
    let k = skip_blanks(s, j);
    if k < s.len() && (s[k] == STAR || s[k] == SLASH || s[k] == CARET) {
        let m = skip_blanks(s, k + 1);
        match atom(s, m) {
            Some((b, n)) => {
                let acc = concat(concat(acc, single(s[k])), b);
                mul_tail(s, n, acc)
            },
            None => (acc, j),
        }
    } else {
        (acc, j)
    }
}

fn factor(s: &[u8], i: usize) -> (r: Option<(Vec<u8>, usize)>)
    requires
        i <= s@.len(),
    ensures
        same(r, factor_rule(s@, i as int)),
        bounded(r, s@, i as int),
    decreases s@.len() - i, 10nat,
{
    match atom(s, i) {
        Some((a, j)) => Some(mul_tail(s, j, a)),
        None => None,
    }
}

fn add_tail(s: &[u8], j: usize, acc: Vec<u8>) -> (r: (Vec<u8>, usize))
    requires
        j <= s@.len(),
    ensures
        (r.0@, r.1 as int) == add_tail_rule(s@, j as int, acc@),
        j <= r.1 <= s@.len(),
    decreases s@.len() - j, 11nat,
{
    let k = skip_blanks(s, j);
    if k < s.len() && (s[k] == PLUS || s[k] == MINUS) {
        let m = skip_blanks(s, k + 1);
        match factor(s, m) {
            Some((b, n)) => {
                let acc = concat(concat(acc, single(s[k])), b);
                add_tail(s, n, acc)
            },
            None => (acc, j),
        }
    } else {
        (acc, j)
    }
}

/// Recognizes factors joined by `+` and `-` at `i`, folded left to right with
/// nothing inserted between operands and operators.
pub fn term(s: &[u8], i: usize) -> (r: Option<(Expression, usize)>)
    requires
        i <= s@.len(),
    ensures
        same(r, term_rule(s@, i as int)),
        bounded(r, s@, i as int),
    decreases s@.len() - i, 12nat,
{
    match factor(s, i) {
        Some((a, j)) => Some(add_tail(s, j, a)),
        None => None,
    }
}

/// Recognizes one comparison of two terms at `i`; `==` renders as `=` and `!=`
/// as `<>`.
pub fn relation(s: &[u8], i: usize) -> (r: Option<(Expression, usize)>)
    requires
        i <= s@.len(),
    ensures
        same(r, relation_rule(s@, i as int)),
        bounded(r, s@, i as int),
    decreases s@.len() - i, 14nat,
{
    match term(s, i) {
        Some((l, j)) => {
            let k = skip_blanks(s, j);
            match relation_operator(s, k) {
                Some((op, w)) => {
                    if w > s.len() - k {
                        return None;
                    }
                    let m = skip_blanks(s, k + w);
                    if m <= i {
                        return None;
                    }
                    match term(s, m) {
                        Some((r, n)) => Some((concat(concat(l, op), r), n)),
                        None => None,
                    }
                },
                None => None,
            }
        },
        None => None,
    }
}

fn negation(s: &[u8], i: usize) -> (r: Option<(Vec<u8>, usize)>)
    requires
        i <= s@.len(),
    ensures
        same(r, not_rule(s@, i as int)),
        bounded(r, s@, i as int),
    decreases s@.len() - i, 15nat,
{
    if has_byte(s, i, BANG) {
        let mut x = logic(s, i + 1);
        if x.is_none() {
            x = relation(s, i + 1);
        }
        if x.is_none() {
            x = brackets(s, i + 1);
        }
        match x {
            Some((x, j)) => Some((concat(text("not "), x), j)),
            None => None,
        }
    } else {
        None
    }
}

fn operand(s: &[u8], i: usize) -> (r: Option<(Vec<u8>, usize)>)
    requires
        i <= s@.len(),
    ensures
        same(r, operand_rule(s@, i as int)),
        bounded(r, s@, i as int),
    decreases s@.len() - i, 16nat,
{
    let r = negation(s, i);
    if r.is_some() {
        r
    } else {
        relation(s, i)
    }
}

fn logic_tail(s: &[u8], j: usize, acc: Vec<u8>) -> (r: (Vec<u8>, usize))
    requires
        j <= s@.len(),
    ensures
        (r.0@, r.1 as int) == logic_tail_rule(s@, j as int, acc@),
        j <= r.1 <= s@.len(),
    decreases s@.len() - j, 17nat,
{
    let k = skip_blanks(s, j);
    match logic_operator(s, k) {
        Some((op, w)) => {
            if w > s.len() - k {
                return (acc, j);
            }
            let m = skip_blanks(s, k + w);
            if m <= j {
                return (acc, j);
            }
            match operand(s, m) {
                Some((x, n)) => {
                    let acc = concat(concat(concat(concat(acc, single(SPACE)), op), single(SPACE)), x);
                    logic_tail(s, n, acc)
                },
                None => (acc, j),
            }
        },
        None => (acc, j),
    }
}

/// Recognizes operands joined by at least one of `and`, `&&`, `or`, `||` at `i`,
/// or a lone negation. `&&` renders as `and`, `||` as `or`, `!` as `not `.
pub fn logic(s: &[u8], i: usize) -> (r: Option<(Expression, usize)>)
    requires
        i <= s@.len(),
    ensures
        same(r, logic_rule(s@, i as int)),
        bounded(r, s@, i as int),
    decreases s@.len() - i, 18nat,
{
    match operand(s, i) {
        Some((a, j)) => {
            let (t, e) = logic_tail(s, j, a);
            if e != j {
                Some((t, e))
            } else {
                negation(s, i)
            }
        },
        None => negation(s, i),
    }
}

/// Recognizes an expression at `i` and renders it in the target dialect.
pub fn expression(s: &[u8], i: usize) -> (r: Option<(Expression, usize)>)
    requires
        i <= s@.len(),
    ensures
        same(r, expression_rule(s@, i as int)),
        bounded(r, s@, i as int),
    decreases s@.len() - i, 20nat,
{
    let r = logic(s, i);
    if r.is_some() {
        return r;
    }
    let r = relation(s, i);
    if r.is_some() {
        return r;
    }
    let r = term(s, i);
    if r.is_some() {
        return r;
    }
    let r = factor(s, i);
    if r.is_some() {
        return r;
    }
    let r = function_call(s, i);
    if r.is_some() {
        return r;
    }
    let r = struct_field(s, i);
    if r.is_some() {
        return r;
    }
    let r = brackets(s, i);
    if r.is_some() {
        return r;
    }
    string_literal(s, i)
}

} // verus!
