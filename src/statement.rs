use vstd::prelude::*;
use vstd::string::StringSliceAdditionalSpecFns;
use crate::expression::{
    ahead, either, expression, expression_rule, join, join_with, logic, logic_rule, param_list,
    params_rule, relation, relation_rule, views, within, Expression, Parsed,
};
use crate::lex::{
    blank_end, byte_at, has_byte, identifier, identifier_rule, push_all,
    skip_blanks, text, CLOSE_BRACE, CLOSE_PAREN, EQUALS, NEWLINE, OPEN_BRACE, OPEN_PAREN, PLUS,
    RETURN, SEMICOLON,
};

verus! {

/// An identifier, as written.
pub type Identify = Vec<u8>;

pub open spec fn opt_view(o: Option<Vec<u8>>) -> Option<Seq<u8>> {
    match o {
        Some(v) => Some(v@),
        None => None,
    }
}

/// `DECLARE <id> TO <init>.`, with `0` where there is no initial value.
pub open spec fn declare_code(id: Seq<u8>, init: Option<Seq<u8>>) -> Seq<u8> {
    let value = match init {
        Some(e) => e,
        None => "0".spec_bytes(),
    };
    "DECLARE ".spec_bytes() + id + " TO ".spec_bytes() + value + ".".spec_bytes()
}

/// `SET <id> to <value>.`
pub open spec fn set_code(id: Seq<u8>, value: Seq<u8>) -> Seq<u8> {
    "SET ".spec_bytes() + id + " to ".spec_bytes() + value + ".".spec_bytes()
}

/// `LOCK <id> TO <value>.`
pub open spec fn lock_code(id: Seq<u8>, value: Seq<u8>) -> Seq<u8> {
    "LOCK ".spec_bytes() + id + " TO ".spec_bytes() + value + ".".spec_bytes()
}

/// `print <e1>+<e2>+....`
pub open spec fn print_code(values: Seq<Seq<u8>>) -> Seq<u8> {
    "print ".spec_bytes() + join(values, PLUS) + ".".spec_bytes()
}

/// The target dialect loops until a condition holds, so the guard is negated.
pub open spec fn while_code(condition: Seq<u8>, body: Seq<u8>) -> Seq<u8> {
    "UNTIL not (".spec_bytes() + condition + ") {".spec_bytes() + body + "\n}".spec_bytes()
}

/// `FROM {<init>} UNTIL not(<cond>) STEP {<step>} DO {\n<body>\n}`
pub open spec fn for_code(init: Seq<u8>, condition: Seq<u8>, step: Seq<u8>, body: Seq<u8>) -> Seq<u8> {
    "FROM {".spec_bytes() + init + "} UNTIL not(".spec_bytes() + condition + ") STEP {".spec_bytes()
        + step + "} DO {\n".spec_bytes() + body + "\n}".spec_bytes()
}

/// Statements rendered one per line, in order.
pub open spec fn lines(codes: Seq<Seq<u8>>) -> Seq<u8> {
    join(codes, NEWLINE)
}

/// A node that renders to target-dialect text.
pub trait Statement {
    spec fn code(&self) -> Seq<u8>;

    fn generate_code(&self) -> (r: Vec<u8>)
        ensures
            r@ == self.code(),
    ;
}

/// `var <id> [= <expr>];`
pub struct VariableDeclaration {
    pub identifier: Identify,
    pub init_value: Option<Expression>,
}

/// `assign <id> = <expr>;`
pub struct LockStatement {
    pub identifier: Identify,
    pub value: Expression,
}

/// `<id> = <expr>;`
pub struct VariableAssign {
    pub identifier: Identify,
    pub value: Expression,
}

/// `print(<params>);`
pub struct PrintStatement {
    pub values: Vec<Expression>,
}

/// Statements in source order.
pub struct CompoundStatement {
    pub values: Vec<StatementNode>,
}

/// `while <expr> { <compound> }`
pub struct WhileStatement {
    pub condition: Expression,
    pub body: CompoundStatement,
}

/// `for <declaration> <condition>; <id> = <expr> { <compound> }`
pub struct ForStatement {
    pub init: VariableDeclaration,
    pub condition: Expression,
    pub step: VariableAssign,
    pub body: CompoundStatement,
}

/// Any one statement.
pub enum StatementNode {
    Declaration(VariableDeclaration),
    Assign(VariableAssign),
    Lock(LockStatement),
    Print(PrintStatement),
    While(WhileStatement),
    For(ForStatement),
}

pub open spec fn node_code(n: StatementNode) -> Seq<u8>
    decreases n, 0nat,
{
    match n {
        StatementNode::Declaration(d) => declare_code(d.identifier@, opt_view(d.init_value)),
        StatementNode::Assign(a) => set_code(a.identifier@, a.value@),
        StatementNode::Lock(l) => lock_code(l.identifier@, l.value@),
        StatementNode::Print(p) => print_code(views(p.values@)),
        StatementNode::While(w) => while_code(
            w.condition@,
            lines_code(w.body.values@, w.body.values@.len() as nat),
        ),
        StatementNode::For(f) => for_code(
            declare_code(f.init.identifier@, opt_view(f.init.init_value)),
            f.condition@,
            set_code(f.step.identifier@, f.step.value@),
            lines_code(f.body.values@, f.body.values@.len() as nat),
        ),
    }
}

/// The first `k` nodes of `v`, rendered one per line.
pub open spec fn lines_code(v: Seq<StatementNode>, k: nat) -> Seq<u8>
    decreases v, k,
{
    if k == 0 || k > v.len() {
        Seq::empty()
    } else if k == 1 {
        node_code(v[0])
    } else {
        lines_code(v, (k - 1) as nat) + seq![NEWLINE] + node_code(v[k - 1])
    }
}

/// The renderings of the nodes, in order.
pub open spec fn codes(v: Seq<StatementNode>) -> Seq<Seq<u8>> {
    v.map_values(|n: StatementNode| node_code(n))
}

/// The rendering of the first `k` nodes is their renderings joined by newlines.
pub proof fn lemma_lines_code(v: Seq<StatementNode>, k: nat)
    requires
        k <= v.len(),
    ensures
        lines_code(v, k) == lines(codes(v.subrange(0, k as int))),
    decreases k,
{
    let c = codes(v.subrange(0, k as int));
    if k == 0 {
        assert(c =~= Seq::<Seq<u8>>::empty());
    } else if k == 1 {
        assert(c =~= seq![node_code(v[0])]);
    } else {
        lemma_lines_code(v, (k - 1) as nat);
        assert(c.drop_last() =~= codes(v.subrange(0, k - 1)));
        assert(c.last() == node_code(v[k - 1]));
    }
}

fn render_declaration(d: &VariableDeclaration) -> (r: Vec<u8>)
    ensures
        r@ == declare_code(d.identifier@, opt_view(d.init_value)),
{
    let mut r = text("DECLARE ");
    push_all(&mut r, &d.identifier);
    push_all(&mut r, &text(" TO "));
    match &d.init_value {
        Some(e) => push_all(&mut r, e),
        None => push_all(&mut r, &text("0")),
    }
    push_all(&mut r, &text("."));
    r
}

fn render_assign(a: &VariableAssign) -> (r: Vec<u8>)
    ensures
        r@ == set_code(a.identifier@, a.value@),
{
    let mut r = text("SET ");
    push_all(&mut r, &a.identifier);
    push_all(&mut r, &text(" to "));
    push_all(&mut r, &a.value);
    push_all(&mut r, &text("."));
    r
}

fn render_lock(l: &LockStatement) -> (r: Vec<u8>)
    ensures
        r@ == lock_code(l.identifier@, l.value@),
{
    let mut r = text("LOCK ");
    push_all(&mut r, &l.identifier);
    push_all(&mut r, &text(" TO "));
    push_all(&mut r, &l.value);
    push_all(&mut r, &text("."));
    r
}

fn render_print(p: &PrintStatement) -> (r: Vec<u8>)
    ensures
        r@ == print_code(views(p.values@)),
{
    let mut r = text("print ");
    push_all(&mut r, &join_with(&p.values, PLUS));
    push_all(&mut r, &text("."));
    r
}

fn render_node(n: &StatementNode) -> (r: Vec<u8>)
    ensures
        r@ == node_code(*n),
    decreases n,
{
    match n {
        StatementNode::Declaration(d) => render_declaration(d),
        StatementNode::Assign(a) => render_assign(a),
        StatementNode::Lock(l) => render_lock(l),
        StatementNode::Print(p) => render_print(p),
        StatementNode::While(w) => {
            let mut r = text("UNTIL not (");
            push_all(&mut r, &w.condition);
            push_all(&mut r, &text(") {"));
            push_all(&mut r, &render_lines(&w.body.values));
            push_all(&mut r, &text("\n}"));
            r
        },
        StatementNode::For(f) => {
            let mut r = text("FROM {");
            push_all(&mut r, &render_declaration(&f.init));
            push_all(&mut r, &text("} UNTIL not("));
            push_all(&mut r, &f.condition);
            push_all(&mut r, &text(") STEP {"));
            push_all(&mut r, &render_assign(&f.step));
            push_all(&mut r, &text("} DO {\n"));
            push_all(&mut r, &render_lines(&f.body.values));
            push_all(&mut r, &text("\n}"));
            r
        },
    }
}

fn render_lines(v: &Vec<StatementNode>) -> (r: Vec<u8>)
    ensures
        r@ == lines_code(v@, v@.len() as nat),
    decreases v,
{
    let mut r: Vec<u8> = Vec::new();
    let mut k: usize = 0;
    while k < v.len()
        invariant
            k <= v@.len(),
            r@ == lines_code(v@, k as nat),
        decreases v@.len() - k,
    {
        if k > 0 {
            r.push(NEWLINE);
        }
        proof {
            broadcast use vstd::std_specs::vec::axiom_vec_index_decreases;
        }
        let c = render_node(&v[k]);
        push_all(&mut r, &c);
        k = k + 1;
        assert(r@ =~= lines_code(v@, k as nat));
    }
    r
}

impl Statement for VariableDeclaration {
    open spec fn code(&self) -> Seq<u8> {
        declare_code(self.identifier@, opt_view(self.init_value))
    }

    fn generate_code(&self) -> (r: Vec<u8>) {
        render_declaration(self)
    }
}

impl Statement for VariableAssign {
    open spec fn code(&self) -> Seq<u8> {
        set_code(self.identifier@, self.value@)
    }

    fn generate_code(&self) -> (r: Vec<u8>) {
        render_assign(self)
    }
}

impl Statement for LockStatement {
    open spec fn code(&self) -> Seq<u8> {
        lock_code(self.identifier@, self.value@)
    }

    fn generate_code(&self) -> (r: Vec<u8>) {
        render_lock(self)
    }
}

impl Statement for PrintStatement {
    open spec fn code(&self) -> Seq<u8> {
        print_code(views(self.values@))
    }

    fn generate_code(&self) -> (r: Vec<u8>) {
        render_print(self)
    }
}

impl Statement for CompoundStatement {
    open spec fn code(&self) -> Seq<u8> {
        lines(codes(self.values@))
    }

    fn generate_code(&self) -> (r: Vec<u8>) {
        let r = render_lines(&self.values);
        proof {
            lemma_lines_code(self.values@, self.values@.len() as nat);
            assert(self.values@.subrange(0, self.values@.len() as int) =~= self.values@);
        }
        r
    }
}

impl Statement for WhileStatement {
    open spec fn code(&self) -> Seq<u8> {
        while_code(self.condition@, self.body.code())
    }

    fn generate_code(&self) -> (r: Vec<u8>) {
        let mut r = text("UNTIL not (");
        push_all(&mut r, &self.condition);
        push_all(&mut r, &text(") {"));
        push_all(&mut r, &self.body.generate_code());
        push_all(&mut r, &text("\n}"));
        r
    }
}

impl Statement for ForStatement {
    open spec fn code(&self) -> Seq<u8> {
        for_code(self.init.code(), self.condition@, self.step.code(), self.body.code())
    }

    fn generate_code(&self) -> (r: Vec<u8>) {
        let mut r = text("FROM {");
        push_all(&mut r, &self.init.generate_code());
        push_all(&mut r, &text("} UNTIL not("));
        push_all(&mut r, &self.condition);
        push_all(&mut r, &text(") STEP {"));
        push_all(&mut r, &self.step.generate_code());
        push_all(&mut r, &text("} DO {\n"));
        push_all(&mut r, &self.body.generate_code());
        push_all(&mut r, &text("\n}"));
        r
    }
}

impl Statement for StatementNode {
    open spec fn code(&self) -> Seq<u8> {
        node_code(*self)
    }

    fn generate_code(&self) -> (r: Vec<u8>) {
        render_node(self)
    }
}

/// `s` holds the word `w` at `i`.
pub open spec fn word_at(s: Seq<u8>, i: int, w: Seq<u8>) -> bool {
    0 <= i && i + w.len() <= s.len() && s.subrange(i, i + w.len()) == w
}

/// The width of the line ending (`\n` or `\r\n`) at `i`, or 0.
pub open spec fn line_end_len(s: Seq<u8>, i: int) -> int {
    if byte_at(s, i, NEWLINE) {
        1
    } else if byte_at(s, i, RETURN) && byte_at(s, i + 1, NEWLINE) {
        2
    } else {
        0
    }
}

/// `<id> = <expr>`: the identifier, the value and the end.
pub open spec fn binding_rule(s: Seq<u8>, i: int) -> Option<(Seq<u8>, Seq<u8>, int)> {
    match identifier_rule(s, i) {
        Some(j) => {
            let k = blank_end(s, j);
            if byte_at(s, k, EQUALS) {
                match expression_rule(s, blank_end(s, k + 1)) {
                    Some((e, n)) => Some((s.subrange(i, j), e, n)),
                    None => None,
                }
            } else {
                None
            }
        },
        None => None,
    }
}

/// `var <id> [= <expr>];`, rendered.
pub open spec fn declare_rule(s: Seq<u8>, i: int) -> Parsed {
    let a = i + "var".spec_bytes().len();
    let b = blank_end(s, a);
    if word_at(s, i, "var".spec_bytes()) && b > a {
        match identifier_rule(s, b) {
            Some(j) => {
                let k = blank_end(s, j);
                let init = if byte_at(s, k, EQUALS) {
                    expression_rule(s, blank_end(s, k + 1))
                } else {
                    None
                };
                let (value, p) = match init {
                    Some((e, n)) => (Some(e), n),
                    None => (None, j),
                };
                if byte_at(s, p, SEMICOLON) {
                    Some((declare_code(s.subrange(b, j), value), p + 1))
                } else {
                    None
                }
            },
            None => None,
        }
    } else {
        None
    }
}

/// `<id> = <expr>;`, rendered.
pub open spec fn assign_rule(s: Seq<u8>, i: int) -> Parsed {
    match binding_rule(s, i) {
        Some((id, e, n)) => if byte_at(s, n, SEMICOLON) {
            Some((set_code(id, e), n + 1))
        } else {
            None
        },
        None => None,
    }
}

/// `assign <id> = <expr>;`, rendered.
pub open spec fn lock_rule(s: Seq<u8>, i: int) -> Parsed {
    let a = i + "assign".spec_bytes().len();
    let b = blank_end(s, a);
    if word_at(s, i, "assign".spec_bytes()) && b > a {
        match binding_rule(s, b) {
            Some((id, e, n)) => if byte_at(s, n, SEMICOLON) {
                Some((lock_code(id, e), n + 1))
            } else {
                None
            },
            None => None,
        }
    } else {
        None
    }
}

/// `print(<params>);`, rendered.
pub open spec fn print_rule(s: Seq<u8>, i: int) -> Parsed {
    let a = i + "print".spec_bytes().len();
    if word_at(s, i, "print".spec_bytes()) && byte_at(s, a, OPEN_PAREN) {
        let (ps, k) = params_rule(s, a + 1);
        if byte_at(s, k, CLOSE_PAREN) && byte_at(s, k + 1, SEMICOLON) {
            Some((print_code(ps), k + 2))
        } else {
            None
        }
    } else {
        None
    }
}

/// The end of the gap next to a loop's brace: blanks, then optionally one line
/// ending and more blanks.
pub open spec fn gap_end(s: Seq<u8>, t: int) -> int {
    let b = blank_end(s, t);
    if line_end_len(s, b) > 0 {
        blank_end(s, b + line_end_len(s, b))
    } else {
        b
    }
}

/// `while <expr> { <compound> }`, rendered.
pub open spec fn while_rule(s: Seq<u8>, i: int) -> Parsed
    decreases s.len() - i, 1nat,
{
    let a = i + "while".spec_bytes().len();
    let b = blank_end(s, a);
    if word_at(s, i, "while".spec_bytes()) && b > a {
        match expression_rule(s, b) {
            Some((c, j)) => {
                let k = blank_end(s, j);
                let m = gap_end(s, k + 1);
                if k > j && byte_at(s, k, OPEN_BRACE) && ahead(s, i, m) {
                    let (body, n) = compound_rule(s, m);
                    let q = gap_end(s, n);
                    if byte_at(s, q, CLOSE_BRACE) {
                        Some((while_code(c, lines(body)), q + 1))
                    } else {
                        None
                    }
                } else {
                    None
                }
            },
            None => None,
        }
    } else {
        None
    }
}


/// `for <declaration> <condition>; <id> = <expr> { <compound> }`, rendered.
pub open spec fn for_rule(s: Seq<u8>, i: int) -> Parsed
    decreases s.len() - i, 1nat,
{
    if word_at(s, i, "for".spec_bytes()) {
        match declare_rule(s, blank_end(s, i + "for".spec_bytes().len())) {
            Some((d, j)) => {
                let b = blank_end(s, j);
                match either(logic_rule(s, b), relation_rule(s, b)) {
                    Some((c, k)) => if byte_at(s, k, SEMICOLON) {
                        match binding_rule(s, blank_end(s, k + 1)) {
                            Some((id, e, r)) => {
                                let t = blank_end(s, r);
                                let u = gap_end(s, t + 1);
                                if t > r && byte_at(s, t, OPEN_BRACE) && ahead(s, i, u) {
                                    let (body, v) = compound_rule(s, u);
                                    let w = gap_end(s, v);
                                    if byte_at(s, w, CLOSE_BRACE) {
                                        Some((for_code(d, c, set_code(id, e), lines(body)), w + 1))
                                    } else {
                                        None
                                    }
                                } else {
                                    None
                                }
                            },
                            None => None,
                        }
                    } else {
                        None
                    },
                    None => None,
                }
            },
            None => None,
        }
    } else {
        None
    }
}

/// One statement, with the blanks around it.
pub open spec fn statement_rule(s: Seq<u8>, i: int) -> Parsed
    decreases s.len() - i, 2nat,
{
    let a = blank_end(s, i);
    if within(s, i, a) {
        match either(declare_rule(s, a), either(assign_rule(s, a), either(lock_rule(s, a),
            either(print_rule(s, a), either(while_rule(s, a), for_rule(s, a)))))) {
            Some((c, j)) => Some((c, blank_end(s, j))),
            None => None,
        }
    } else {
        None
    }
}

/// Statements, each optionally followed by a line ending: their renderings, in
/// order, and the end.
pub open spec fn compound_rule(s: Seq<u8>, i: int) -> (Seq<Seq<u8>>, int)
    decreases s.len() - i, 3nat,
{
    match statement_rule(s, i) {
        Some((c, j)) => if ahead(s, i, j) {
            let (rest, e) = compound_rule(s, j + line_end_len(s, j));
            (seq![c] + rest, e)
        } else {
            (Seq::empty(), i)
        },
        None => (Seq::empty(), i),
    }
}

/// The translation of a whole source text, where its statements take all of it.
pub open spec fn translation(s: Seq<u8>) -> Option<Seq<u8>> {
    let (body, e) = compound_rule(s, 0);
    if e == s.len() {
        Some(lines(body))
    } else {
        None
    }
}

/// Whether `s` holds the word `w` at `i`.
pub fn has_word(s: &[u8], i: usize, w: &str) -> (r: bool)
    requires
        i <= s@.len(),
    ensures
        r == word_at(s@, i as int, w.spec_bytes()),
        r ==> i + w.spec_bytes().len() <= s@.len() <= usize::MAX,
{
    let n = s.len();
    let b = w.as_bytes();
    if b.len() > s.len() - i {
        return false;
    }
    let mut k: usize = 0;
    while k < b.len()
        invariant
            k <= b@.len(),
            i + b@.len() <= s@.len() == n,
            b@ == w.spec_bytes(),
            forall|m: int| 0 <= m < k ==> s@[i + m] == b@[m],
        decreases b@.len() - k,
    {
        if s[i + k] != b[k] {
            assert(s@.subrange(i as int, i + b@.len())[k as int] != b@[k as int]);
            return false;
        }
        k = k + 1;
    }
    assert(s@.subrange(i as int, i + b@.len()) =~= b@);
    true
}

fn line_ending(s: &[u8], i: usize) -> (r: usize)
    requires
        i <= s@.len(),
    ensures
        r == line_end_len(s@, i as int),
        i + r <= s@.len(),
{
    if has_byte(s, i, NEWLINE) {
        1
    } else if has_byte(s, i, RETURN) && has_byte(s, i + 1, NEWLINE) {
        2
    } else {
        0
    }
}

fn skip_gap(s: &[u8], t: usize) -> (r: usize)
    requires
        t <= s@.len(),
    ensures
        r == gap_end(s@, t as int),
        t <= r <= s@.len(),
{
    let n = s.len();
    let b = skip_blanks(s, t);
    let le = line_ending(s, b);
    if le > 0 {
        skip_blanks(s, b + le)
    } else {
        b
    }
}

fn binding(s: &[u8], i: usize) -> (r: Option<(Vec<u8>, Vec<u8>, usize)>)
    requires
        i <= s@.len(),
    ensures
        match r {
            Some((id, e, n)) => binding_rule(s@, i as int) == Some((id@, e@, n as int)) && i <= n
                <= s@.len(),
            None => binding_rule(s@, i as int) is None,
        },
{
    match identifier(s, i) {
        Some((id, j)) => {
            let k = skip_blanks(s, j);
            if has_byte(s, k, EQUALS) {
                match expression(s, skip_blanks(s, k + 1)) {
                    Some((e, n)) => Some((id, e, n)),
                    None => None,
                }
            } else {
                None
            }
        },
        None => None,
    }
}

/// Recognizes `var <id> [= <expr>];` at `i`.
pub fn variable_declare(s: &[u8], i: usize) -> (r: Option<(VariableDeclaration, usize)>)
    requires
        i <= s@.len(),
    ensures
        match r {
            Some((d, j)) => declare_rule(s@, i as int) == Some((d.code(), j as int)) && i <= j
                <= s@.len(),
            None => declare_rule(s@, i as int) is None,
        },
{
    if !has_word(s, i, "var") {
        return None;
    }
    let a = i + "var".len();
    let b = skip_blanks(s, a);
    if b <= a {
        return None;
    }
    match identifier(s, b) {
        Some((id, j)) => {
            let k = skip_blanks(s, j);
            let mut value: Option<Vec<u8>> = None;
            let mut p = j;
            if has_byte(s, k, EQUALS) {
                match expression(s, skip_blanks(s, k + 1)) {
                    Some((e, n)) => {
                        value = Some(e);
                        p = n;
                    },
                    None => {},
                }
            }
            if has_byte(s, p, SEMICOLON) {
                Some((VariableDeclaration { identifier: id, init_value: value }, p + 1))
            } else {
                None
            }
        },
        None => None,
    }
}

/// Recognizes `<id> = <expr>;` at `i`.
pub fn variable_assign(s: &[u8], i: usize) -> (r: Option<(VariableAssign, usize)>)
    requires
        i <= s@.len(),
    ensures
        match r {
            Some((a, j)) => assign_rule(s@, i as int) == Some((a.code(), j as int)) && i <= j
                <= s@.len(),
            None => assign_rule(s@, i as int) is None,
        },
{
    match binding(s, i) {
        Some((id, e, n)) => if has_byte(s, n, SEMICOLON) {
            Some((VariableAssign { identifier: id, value: e }, n + 1))
        } else {
            None
        },
        None => None,
    }
}

/// Recognizes `assign <id> = <expr>;` at `i`.
pub fn lock(s: &[u8], i: usize) -> (r: Option<(LockStatement, usize)>)
    requires
        i <= s@.len(),
    ensures
        match r {
            Some((l, j)) => lock_rule(s@, i as int) == Some((l.code(), j as int)) && i <= j
                <= s@.len(),
            None => lock_rule(s@, i as int) is None,
        },
{
    if !has_word(s, i, "assign") {
        return None;
    }
    let a = i + "assign".len();
    let b = skip_blanks(s, a);
    if b <= a {
        return None;
    }
    match binding(s, b) {
        Some((id, e, n)) => if has_byte(s, n, SEMICOLON) {
            Some((LockStatement { identifier: id, value: e }, n + 1))
        } else {
            None
        },
        None => None,
    }
}

/// Recognizes `print(<params>);` at `i`.
pub fn print(s: &[u8], i: usize) -> (r: Option<(PrintStatement, usize)>)
    requires
        i <= s@.len(),
    ensures
        match r {
            Some((p, j)) => print_rule(s@, i as int) == Some((p.code(), j as int)) && i <= j
                <= s@.len(),
            None => print_rule(s@, i as int) is None,
        },
{
    if !has_word(s, i, "print") {
        return None;
    }
    let a = i + "print".len();
    if !has_byte(s, a, OPEN_PAREN) {
        return None;
    }
    let (ps, k) = param_list(s, a + 1);
    if has_byte(s, k, CLOSE_PAREN) && has_byte(s, k + 1, SEMICOLON) {
        Some((PrintStatement { values: ps }, k + 2))
    } else {
        None
    }
}

/// Recognizes `while <expr> { <compound> }` at `i`.
pub fn while_statement(s: &[u8], i: usize) -> (r: Option<(WhileStatement, usize)>)
    requires
        i <= s@.len(),
    ensures
        match r {
            Some((w, j)) => while_rule(s@, i as int) == Some((w.code(), j as int)) && i <= j
                <= s@.len(),
            None => while_rule(s@, i as int) is None,
        },
    decreases s@.len() - i, 1nat,
{
    if !has_word(s, i, "while") {
        return None;
    }
    let a = i + "while".len();
    let b = skip_blanks(s, a);
    if b <= a {
        return None;
    }
    match expression(s, b) {
        Some((c, j)) => {
            let k = skip_blanks(s, j);
            if !(k > j && has_byte(s, k, OPEN_BRACE)) {
                return None;
            }
            let m = skip_gap(s, k + 1);
            let (body, n) = compound(s, m);
            let q = skip_gap(s, n);
            if has_byte(s, q, CLOSE_BRACE) {
                Some((WhileStatement { condition: c, body }, q + 1))
            } else {
                None
            }
        },
        None => None,
    }
}

/// Recognizes `for <declaration> <condition>; <id> = <expr> { <compound> }` at `i`.
pub fn for_statement(s: &[u8], i: usize) -> (r: Option<(ForStatement, usize)>)
    requires
        i <= s@.len(),
    ensures
        match r {
            Some((f, j)) => for_rule(s@, i as int) == Some((f.code(), j as int)) && i <= j
                <= s@.len(),
            None => for_rule(s@, i as int) is None,
        },
    decreases s@.len() - i, 1nat,
{
    if !has_word(s, i, "for") {
        return None;
    }
    let init = variable_declare(s, skip_blanks(s, i + "for".len()));
    let (init, j) = match init {
        Some(d) => d,
        None => return None,
    };
    let b = skip_blanks(s, j);
    let mut cond = logic(s, b);
    if cond.is_none() {
        cond = relation(s, b);
    }
    let (c, k) = match cond {
        Some(c) => c,
        None => return None,
    };
    if !has_byte(s, k, SEMICOLON) {
        return None;
    }
    let (id, e, r) = match binding(s, skip_blanks(s, k + 1)) {
        Some(x) => x,
        None => return None,
    };
    let t = skip_blanks(s, r);
    if !(t > r && has_byte(s, t, OPEN_BRACE)) {
        return None;
    }
    let u = skip_gap(s, t + 1);
    let (body, v) = compound(s, u);
    let w = skip_gap(s, v);
    if has_byte(s, w, CLOSE_BRACE) {
        let step = VariableAssign { identifier: id, value: e };
        Some((ForStatement { init, condition: c, step, body }, w + 1))
    } else {
        None
    }
}

/// Recognizes one statement at `i`, with the blanks around it.
#[verifier::rlimit(40)]
pub fn statement(s: &[u8], i: usize) -> (r: Option<(StatementNode, usize)>)
    requires
        i <= s@.len(),
    ensures
        match r {
            Some((n, j)) => statement_rule(s@, i as int) == Some((node_code(n), j as int)) && i
                <= j <= s@.len(),
            None => statement_rule(s@, i as int) is None,
        },
    decreases s@.len() - i, 2nat,
{
    let a = skip_blanks(s, i);
    let found: Option<(StatementNode, usize)> = match variable_declare(s, a) {
        Some((d, j)) => Some((StatementNode::Declaration(d), j)),
        None => match variable_assign(s, a) {
            Some((x, j)) => Some((StatementNode::Assign(x), j)),
            None => match lock(s, a) {
                Some((l, j)) => Some((StatementNode::Lock(l), j)),
                None => match print(s, a) {
                    Some((p, j)) => Some((StatementNode::Print(p), j)),
                    None => match while_statement(s, a) {
                        Some((w, j)) => {
                            proof {
                                lemma_lines_code(w.body.values@, w.body.values@.len() as nat);
                                assert(w.body.values@.subrange(0, w.body.values@.len() as int)
                                    =~= w.body.values@);
                            }
                            Some((StatementNode::While(w), j))
                        },
                        None => match for_statement(s, a) {
                            Some((f, j)) => {
                                proof {
                                    lemma_lines_code(f.body.values@, f.body.values@.len() as nat);
                                    assert(f.body.values@.subrange(0, f.body.values@.len() as int)
                                        =~= f.body.values@);
                                }
                                Some((StatementNode::For(f), j))
                            },
                            None => None,
                        },
                    },
                },
            },
        },
    };
    match found {
        Some((n, j)) => Some((n, skip_blanks(s, j))),
        None => None,
    }
}

/// Recognizes statements from `i` on, each optionally followed by a line ending,
/// until no further statement matches.
pub fn compound(s: &[u8], i: usize) -> (r: (CompoundStatement, usize))
    requires
        i <= s@.len(),
    ensures
        (codes(r.0.values@), r.1 as int) == compound_rule(s@, i as int),
        i <= r.1 <= s@.len(),
    decreases s@.len() - i, 3nat,
{
    let len = s.len();
    match statement(s, i) {
        Some((n, j)) => {
            if j <= i {
                let r = CompoundStatement { values: Vec::new() };
                assert(codes(r.values@) =~= Seq::<Seq<u8>>::empty());
                return (r, i);
            }
            let k = j + line_ending(s, j);
            let (rest, e) = compound(s, k);
            let mut values = rest.values;
            let ghost old_values = values@;
            values.insert(0, n);
            assert(codes(values@) =~= seq![node_code(values@[0])] + codes(old_values));
            (CompoundStatement { values }, e)
        },
        None => {
            let r = CompoundStatement { values: Vec::new() };
            assert(codes(r.values@) =~= Seq::<Seq<u8>>::empty());
            (r, i)
        },
    }
}

/// The position where the statements of a source text stop: its length exactly
/// when the whole text is translated.
pub fn parse_end(s: &[u8]) -> (r: usize)
    ensures
        r == compound_rule(s@, 0).1,
{
    let (_, e) = compound(s, 0);
    e
}

/// Translates a whole source text into the target dialect. Fails, with no output,
/// where the statements do not take all of the text.
pub fn translate(s: &[u8]) -> (r: Option<Vec<u8>>)
    ensures
        match r {
            Some(out) => translation(s@) == Some(out@),
            None => translation(s@) is None,
        },
{
    let (body, e) = compound(s, 0);
    if e == s.len() {
        Some(body.generate_code())
    } else {
        None
    }
}

/// A rendering with a first line `c` followed by more lines.
pub proof fn lemma_lines_cons(c: Seq<u8>, rest: Seq<Seq<u8>>)
    ensures
        lines(seq![c] + rest) == if rest.len() == 0 {
            c
        } else {
            c + seq![NEWLINE] + lines(rest)
        },
    decreases rest.len(),
{
    let all = seq![c] + rest;
    assert(join(seq![c], NEWLINE) == seq![c][0]);
    if rest.len() == 0 {
        assert(all =~= seq![c]);
    } else if rest.len() == 1 {
        assert(all.drop_last() =~= seq![c]);
        assert(all.last() == rest[0]);
        assert(lines(rest) == rest[0]);
        assert(lines(all) == c + seq![NEWLINE] + rest[0]);
    } else {
        lemma_lines_cons(c, rest.drop_last());
        assert(all.drop_last() =~= seq![c] + rest.drop_last());
        assert(all.last() == rest.last());
        assert(lines(all) =~= c + seq![NEWLINE] + lines(rest));
    }
}

/// Statements render in source order, one per line: where a statement renders to
/// `c` and ends at `j`, the rendering of the statements from `i` is `c`, then a
/// newline and the rendering of the statements after it, if there are any.
pub proof fn lemma_source_order(s: Seq<u8>, i: int, c: Seq<u8>, j: int)
    requires
        statement_rule(s, i) == Some((c, j)),
        0 <= i < j <= s.len(),
    ensures
        ({
            let rest = compound_rule(s, j + line_end_len(s, j)).0;
            &&& compound_rule(s, i).0 == seq![c] + rest
            &&& lines(compound_rule(s, i).0) == if rest.len() == 0 {
                c
            } else {
                c + seq![NEWLINE] + lines(rest)
            }
        }),
{
    let rest = compound_rule(s, j + line_end_len(s, j)).0;
    lemma_lines_cons(c, rest);
}

/// A text that the statements do not take whole has no translation.
pub proof fn lemma_partial_parse_fails(s: Seq<u8>)
    requires
        compound_rule(s, 0).1 != s.len(),
    ensures
        translation(s) is None,
{
}

} // verus!
