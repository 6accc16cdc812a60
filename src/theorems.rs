//! Facts about the whole pipeline from tokens to assembly text, stated over
//! the grammar (`parse_*`) and the assembly text of each node (`*_code`).
use vstd::prelude::*;

use crate::asm_generator::{
    combine_code, constant_code, expression_code, factor_chain_code, factor_code, program_code,
    term_chain_code, term_code, unary_code,
};
use crate::ast::{
    FunctionDeclModel, ProgramModel, StatementModel, error_at, parse_function, parse_statement, is_i32_literal, parse_expression, parse_expression_rest, parse_factor,
    parse_program, parse_term, parse_term_rest, spec_unary, BiOperator, ExpressionModel,
    FactorModel, TermModel,
};
use crate::machine::{
    binary_value, expression_instrs, expression_value, factor_instrs, factor_value,
    lemma_expression_runs, lemma_expression_text, lemma_run_concat, lemma_run_unary,
    lemma_unary_text, unary_instrs, lemma_factor_runs, lemma_factor_text, render,
    run, term_chain_value, term_value, factor_chain_value, Machine,
};
use crate::lexxer::{
    is_identifier_word, is_literal_word, keyword_token, tokens_of_words, word_token, LexToken,
};

verus! {

/// The text that every program starts with: the global symbol and the label
/// of its function.
pub open spec fn function_header(name: Seq<char>) -> Seq<char> {
    ".globl "@ + name + "\n"@ + name + ":\n"@
}

/// The tokens of `int <name>() {` from position 0.
pub open spec fn opens_function(t: Seq<LexToken>) -> bool {
    &&& t.len() >= 6
    &&& t[0] is Int
    &&& t[1] is Identifier
    &&& t[2] is OpenParenth
    &&& t[3] is CloseParenth
    &&& t[4] is OpenBrace
    &&& t[5] is Return
}

/// `int <name>() { return <constant>; }` compiles to a load of exactly that
/// constant into the accumulator followed by a return, and nothing else.
pub proof fn lemma_return_constant(t: Seq<LexToken>)
    requires
        opens_function(t),
        t.len() >= 9,
        t[6] is IntLiteral,
        is_i32_literal(t[6]->IntLiteral_0@),
        t[7] is Semicolon,
        t[8] is CloseBrace,
    ensures
        parse_program(t) is Ok,
        program_code(parse_program(t)->Ok_0) == function_header(t[1]->Identifier_0@)
            + constant_code(t[6]->IntLiteral_0@) + "ret\n"@,
{
    let c = t[6]->IntLiteral_0@;
    let f = FactorModel::Constant(c);
    assert(parse_factor(t, 6) == Ok::<(FactorModel, int), crate::error::CompileError>((f, 7)));
    assert(parse_term_rest(t, 7) is Ok);
    assert(parse_term_rest(t, 7)->Ok_0 == (Seq::<(BiOperator, FactorModel)>::empty(), 7int));
    let tm = TermModel { first: f, rest: Seq::empty() };
    assert(parse_term(t, 6)->Ok_0 == (tm, 7int));
    assert(parse_expression_rest(t, 7)->Ok_0 == (Seq::<(BiOperator, TermModel)>::empty(), 7int));
    let e = ExpressionModel { first: tm, rest: Seq::empty() };
    assert(parse_expression(t, 6)->Ok_0 == (e, 7int));
    assert(factor_chain_code(Seq::<(BiOperator, FactorModel)>::empty()) =~= Seq::empty());
    assert(term_chain_code(Seq::<(BiOperator, TermModel)>::empty()) =~= Seq::empty());
    assert(expression_code(e) =~= constant_code(c));
}

/// `int <name>() { return <op> <constant>; }` compiles to the load of the
/// constant, then the fixed instructions of the operator, then a return.
pub proof fn lemma_unary_constant(t: Seq<LexToken>)
    requires
        opens_function(t),
        t.len() >= 10,
        spec_unary(t[6]) is Some,
        t[7] is IntLiteral,
        is_i32_literal(t[7]->IntLiteral_0@),
        t[8] is Semicolon,
        t[9] is CloseBrace,
    ensures
        parse_program(t) is Ok,
        program_code(parse_program(t)->Ok_0) == function_header(t[1]->Identifier_0@)
            + constant_code(t[7]->IntLiteral_0@) + unary_code(spec_unary(t[6])->Some_0)
            + "ret\n"@,
{
    let c = t[7]->IntLiteral_0@;
    let op = spec_unary(t[6])->Some_0;
    let inner = FactorModel::Constant(c);
    assert(parse_factor(t, 7) == Ok::<(FactorModel, int), crate::error::CompileError>((inner, 8)));
    let f = FactorModel::UnOp(op, Box::new(inner));
    assert(parse_factor(t, 6) == Ok::<(FactorModel, int), crate::error::CompileError>((f, 8)));
    assert(parse_term_rest(t, 8)->Ok_0 == (Seq::<(BiOperator, FactorModel)>::empty(), 8int));
    let tm = TermModel { first: f, rest: Seq::empty() };
    assert(parse_term(t, 6)->Ok_0 == (tm, 8int));
    assert(parse_expression_rest(t, 8)->Ok_0 == (Seq::<(BiOperator, TermModel)>::empty(), 8int));
    let e = ExpressionModel { first: tm, rest: Seq::empty() };
    assert(parse_expression(t, 6)->Ok_0 == (e, 8int));
    assert(factor_chain_code(Seq::<(BiOperator, FactorModel)>::empty()) =~= Seq::empty());
    assert(term_chain_code(Seq::<(BiOperator, TermModel)>::empty()) =~= Seq::empty());
    assert(factor_code(inner) == constant_code(c));
    assert(factor_code(f) == factor_code(inner) + unary_code(op));
    assert(term_code(tm) =~= factor_code(f));
    assert(expression_code(e) =~= constant_code(c) + unary_code(op));
}

/// A unary operator applies to the factor that follows it: that factor's
/// code runs first, then the operator's. So `!~-3` negates, then
/// complements, then compares with zero.
pub proof fn lemma_unary_applies_after_operand(t: Seq<LexToken>, pos: int)
    requires
        0 <= pos < t.len(),
        spec_unary(t[pos]) is Some,
        parse_factor(t, pos + 1) is Ok,
    ensures
        parse_factor(t, pos) is Ok,
        parse_factor(t, pos)->Ok_0.0 == FactorModel::UnOp(
            spec_unary(t[pos])->Some_0,
            Box::new(parse_factor(t, pos + 1)->Ok_0.0),
        ),
        parse_factor(t, pos)->Ok_0.1 == parse_factor(t, pos + 1)->Ok_0.1,
        factor_code(parse_factor(t, pos)->Ok_0.0) == factor_code(parse_factor(t, pos + 1)->Ok_0.0)
            + unary_code(spec_unary(t[pos])->Some_0),
{
}

/// `( e )` is a factor that holds the very expression `e` parses to, and its
/// code is the code of `e`. A missing `)` is an error at the token that
/// stands in its place.
pub proof fn lemma_parenthesized(t: Seq<LexToken>, pos: int)
    requires
        0 <= pos < t.len(),
        t[pos] is OpenParenth,
        parse_expression(t, pos + 1) is Ok,
    ensures
        ({
            let (e, p) = parse_expression(t, pos + 1)->Ok_0;
            if p < t.len() && t[p] is CloseParenth {
                &&& parse_factor(t, pos) == Ok::<(FactorModel, int), crate::error::CompileError>(
                    (FactorModel::Expr(Box::new(e)), p + 1),
                )
                &&& factor_code(FactorModel::Expr(Box::new(e))) == expression_code(e)
            } else {
                parse_factor(t, pos) == Err::<(FactorModel, int), crate::error::CompileError>(
                    error_at(t, p),
                )
            }
        }),
{
}

/// A chain of same-level operators is folded from the left: the code of a
/// chain with one more operand is the code of the shorter chain, whose value
/// is then combined with the new operand. So `8-3-2` computes `(8-3)-2`.
pub proof fn lemma_chains_fold_left(
    e: ExpressionModel,
    op: BiOperator,
    x: TermModel,
    tm: TermModel,
    fop: BiOperator,
    f: FactorModel,
)
    ensures
        expression_code(ExpressionModel { first: e.first, rest: e.rest.push((op, x)) })
            == expression_code(e) + combine_code(op, term_code(x)),
        term_code(TermModel { first: tm.first, rest: tm.rest.push((fop, f)) }) == term_code(tm)
            + combine_code(fop, factor_code(f)),
        expression_value(ExpressionModel { first: e.first, rest: e.rest.push((op, x)) }) == match (
            expression_value(e),
            term_value(x),
        ) {
            (Some(a), Some(b)) => binary_value(op, a, b),
            _ => None,
        },
        term_value(TermModel { first: tm.first, rest: tm.rest.push((fop, f)) }) == match (
            term_value(tm),
            factor_value(f),
        ) {
            (Some(a), Some(b)) => binary_value(fop, a, b),
            _ => None,
        },
{
    assert(e.rest.push((op, x)).drop_last() =~= e.rest);
    assert(tm.rest.push((fop, f)).drop_last() =~= tm.rest);
    let a = term_code(e.first);
    let b = term_chain_code(e.rest);
    let c = combine_code(op, term_code(x));
    assert(a + (b + c) =~= a + b + c);
    let a2 = factor_code(tm.first);
    let b2 = factor_chain_code(tm.rest);
    let c2 = combine_code(fop, factor_code(f));
    assert(a2 + (b2 + c2) =~= a2 + b2 + c2);
    assert(term_chain_value(term_value(e.first), e.rest.push((op, x))) == match (
        term_chain_value(term_value(e.first), e.rest),
        term_value(x),
    ) {
        (Some(a), Some(b)) => binary_value(op, a, b),
        _ => None,
    });
    assert(factor_chain_value(factor_value(tm.first), tm.rest.push((fop, f))) == match (
        factor_chain_value(factor_value(tm.first), tm.rest),
        factor_value(f),
    ) {
        (Some(a), Some(b)) => binary_value(fop, a, b),
        _ => None,
    });
}

pub open spec fn is_multiplicative_op(op: BiOperator) -> bool {
    op is Multiplication || op is Division
}

pub open spec fn is_additive_op(op: BiOperator) -> bool {
    op is Addition || op is Subtraction
}

/// Every operator of a term's chain is `*` or `/`.
pub open spec fn term_is_multiplicative(tm: TermModel) -> bool {
    forall|i: int| 0 <= i < tm.rest.len() ==> is_multiplicative_op(#[trigger] tm.rest[i].0)
}

proof fn lemma_term_rest_multiplicative(t: Seq<LexToken>, pos: int)
    requires
        parse_term_rest(t, pos) is Ok,
    ensures
        forall|i: int|
            0 <= i < parse_term_rest(t, pos)->Ok_0.0.len() ==> is_multiplicative_op(
                #[trigger] parse_term_rest(t, pos)->Ok_0.0[i].0,
            ),
    decreases t.len() - pos,
{
    if 0 <= pos < t.len() && crate::ast::is_multiplicative(t[pos]) {
        let (f, p) = parse_factor(t, pos + 1)->Ok_0;
        lemma_term_rest_multiplicative(t, p);
        let rest = parse_term_rest(t, p)->Ok_0.0;
        let s = parse_term_rest(t, pos)->Ok_0.0;
        assert forall|i: int| 0 <= i < s.len() implies is_multiplicative_op(#[trigger] s[i].0) by {
            if i > 0 {
                assert(s[i] == rest[i - 1]);
            }
        }
    }
}

proof fn lemma_expression_rest_additive(t: Seq<LexToken>, pos: int)
    requires
        parse_expression_rest(t, pos) is Ok,
    ensures
        forall|i: int|
            0 <= i < parse_expression_rest(t, pos)->Ok_0.0.len() ==> {
                &&& is_additive_op(#[trigger] parse_expression_rest(t, pos)->Ok_0.0[i].0)
                &&& term_is_multiplicative(parse_expression_rest(t, pos)->Ok_0.0[i].1)
            },
    decreases t.len() - pos,
{
    if 0 <= pos < t.len() && crate::ast::is_additive(t[pos]) {
        let (x, p) = parse_term(t, pos + 1)->Ok_0;
        lemma_term_rest_multiplicative(t, parse_factor(t, pos + 1)->Ok_0.1);
        lemma_expression_rest_additive(t, p);
        let rest = parse_expression_rest(t, p)->Ok_0.0;
        let s = parse_expression_rest(t, pos)->Ok_0.0;
        assert forall|i: int| 0 <= i < s.len() implies {
            &&& is_additive_op(#[trigger] s[i].0)
            &&& term_is_multiplicative(s[i].1)
        } by {
            if i > 0 {
                assert(s[i] == rest[i - 1]);
            }
        }
    }
}

/// `*` and `/` bind tighter than `+` and `-`: in a parsed expression every
/// operator of the outer chain is `+` or `-`, and every operator inside each
/// of its terms is `*` or `/`. So `2+3*4` is `2 + (3*4)`.
pub proof fn lemma_precedence(t: Seq<LexToken>, pos: int)
    requires
        parse_expression(t, pos) is Ok,
    ensures
        ({
            let e = parse_expression(t, pos)->Ok_0.0;
            &&& term_is_multiplicative(e.first)
            &&& forall|i: int|
                0 <= i < e.rest.len() ==> is_additive_op(#[trigger] e.rest[i].0)
                    && term_is_multiplicative(e.rest[i].1)
        }),
{
    let p = parse_factor(t, pos)->Ok_0.1;
    let q = parse_term(t, pos)->Ok_0.1;
    lemma_term_rest_multiplicative(t, p);
    lemma_expression_rest_additive(t, q);
    let e = parse_expression(t, pos)->Ok_0.0;
    assert(e.first.rest == parse_term_rest(t, p)->Ok_0.0);
    assert(e.rest == parse_expression_rest(t, q)->Ok_0.0);
}


/// Two tokens of the same kind that carry the same text.
pub open spec fn same_token(a: LexToken, b: LexToken) -> bool {
    match (a, b) {
        (LexToken::Identifier(x), LexToken::Identifier(y)) => x@ == y@,
        (LexToken::IntLiteral(x), LexToken::IntLiteral(y)) => x@ == y@,
        _ => a == b,
    }
}

pub open spec fn same_tokens(t1: Seq<LexToken>, t2: Seq<LexToken>) -> bool {
    &&& t1.len() == t2.len()
    &&& forall|i: int| 0 <= i < t1.len() ==> same_token(#[trigger] t1[i], t2[i])
}

proof fn lemma_same_factor(t1: Seq<LexToken>, t2: Seq<LexToken>, pos: int)
    requires
        same_tokens(t1, t2),
    ensures
        parse_factor(t1, pos) == parse_factor(t2, pos),
        parse_factor(t1, pos) is Ok ==> pos < parse_factor(t1, pos)->Ok_0.1 <= t1.len(),
    decreases t1.len() - pos, 0int,
{
    if 0 <= pos < t1.len() {
        assert(same_token(t1[pos], t2[pos]));
        match t1[pos] {
            LexToken::OpenParenth => {
                lemma_same_expression(t1, t2, pos + 1);
                if parse_expression(t1, pos + 1) is Ok {
                    let p = parse_expression(t1, pos + 1)->Ok_0.1;
                    if 0 <= p < t1.len() {
                        assert(same_token(t1[p], t2[p]));
                    }
                }
            },
            LexToken::IntLiteral(_) => {},
            _ => {
                lemma_same_factor(t1, t2, pos + 1);
            },
        }
    }
}

proof fn lemma_same_term_rest(t1: Seq<LexToken>, t2: Seq<LexToken>, pos: int)
    requires
        same_tokens(t1, t2),
    ensures
        parse_term_rest(t1, pos) == parse_term_rest(t2, pos),
        0 <= pos <= t1.len() && parse_term_rest(t1, pos) is Ok ==> pos <= parse_term_rest(t1, pos)->Ok_0.1 <= t1.len(),
    decreases t1.len() - pos, 1int,
{
    if 0 <= pos < t1.len() {
        assert(same_token(t1[pos], t2[pos]));
        if crate::ast::is_multiplicative(t1[pos]) {
            lemma_same_factor(t1, t2, pos + 1);
            if parse_factor(t1, pos + 1) is Ok {
                let p = parse_factor(t1, pos + 1)->Ok_0.1;
                if pos < p <= t1.len() {
                    lemma_same_term_rest(t1, t2, p);
                }
            }
        }
    }
}

proof fn lemma_same_term(t1: Seq<LexToken>, t2: Seq<LexToken>, pos: int)
    requires
        same_tokens(t1, t2),
    ensures
        parse_term(t1, pos) == parse_term(t2, pos),
        parse_term(t1, pos) is Ok ==> pos < parse_term(t1, pos)->Ok_0.1 <= t1.len(),
    decreases t1.len() - pos, 2int,
{
    lemma_same_factor(t1, t2, pos);
    if parse_factor(t1, pos) is Ok {
        let p = parse_factor(t1, pos)->Ok_0.1;
        if pos < p <= t1.len() {
            lemma_same_term_rest(t1, t2, p);
        }
    }
}

proof fn lemma_same_expression_rest(t1: Seq<LexToken>, t2: Seq<LexToken>, pos: int)
    requires
        same_tokens(t1, t2),
    ensures
        parse_expression_rest(t1, pos) == parse_expression_rest(t2, pos),
        0 <= pos <= t1.len() && parse_expression_rest(t1, pos) is Ok ==> pos <= parse_expression_rest(t1, pos)->Ok_0.1 <= t1.len(),
    decreases t1.len() - pos, 3int,
{
    if 0 <= pos < t1.len() {
        assert(same_token(t1[pos], t2[pos]));
        if crate::ast::is_additive(t1[pos]) {
            lemma_same_term(t1, t2, pos + 1);
            if parse_term(t1, pos + 1) is Ok {
                let p = parse_term(t1, pos + 1)->Ok_0.1;
                if pos < p <= t1.len() {
                    lemma_same_expression_rest(t1, t2, p);
                }
            }
        }
    }
}

proof fn lemma_same_expression(t1: Seq<LexToken>, t2: Seq<LexToken>, pos: int)
    requires
        same_tokens(t1, t2),
    ensures
        parse_expression(t1, pos) == parse_expression(t2, pos),
        parse_expression(t1, pos) is Ok ==> pos < parse_expression(t1, pos)->Ok_0.1 <= t1.len(),
    decreases t1.len() - pos, 4int,
{
    lemma_same_term(t1, t2, pos);
    if parse_term(t1, pos) is Ok {
        let p = parse_term(t1, pos)->Ok_0.1;
        if pos < p <= t1.len() {
            lemma_same_expression_rest(t1, t2, p);
        }
    }
}

proof fn lemma_same_program(t1: Seq<LexToken>, t2: Seq<LexToken>)
    requires
        same_tokens(t1, t2),
    ensures
        parse_program(t1) == parse_program(t2),
{
    let n = t1.len();
    if 0 < n {
        assert(same_token(t1[0], t2[0]));
    }
    if 1 < n {
        assert(same_token(t1[1], t2[1]));
    }
    if 2 < n {
        assert(same_token(t1[2], t2[2]));
    }
    if 3 < n {
        assert(same_token(t1[3], t2[3]));
    }
    if 4 < n {
        assert(same_token(t1[4], t2[4]));
    }
    if 5 < n {
        assert(same_token(t1[5], t2[5]));
    }
    assert(crate::ast::header_error(t1, 0) == crate::ast::header_error(t2, 0));
    lemma_same_expression(t1, t2, 6);
    if parse_expression(t1, 6) is Ok {
        let p = parse_expression(t1, 6)->Ok_0.1;
        if 0 <= p < n {
            assert(same_token(t1[p], t2[p]));
        }
        if 0 <= p + 1 < n {
            assert(same_token(t1[p + 1], t2[p + 1]));
        }
    }
    assert(parse_statement(t1, 5) == parse_statement(t2, 5));
    if parse_statement(t1, 5) is Ok {
        let p = parse_statement(t1, 5)->Ok_0.1;
        if 0 <= p < n {
            assert(same_token(t1[p], t2[p]));
        }
    }
    assert(parse_function(t1, 0) == parse_function(t2, 0));
}

/// Lexing is a function of the words: two token sequences that both stand
/// for the same words agree token by token.
proof fn lemma_tokens_of_same_words(ws: Seq<Seq<char>>, t1: Seq<LexToken>, t2: Seq<LexToken>)
    requires
        tokens_of_words(ws, t1),
        tokens_of_words(ws, t2),
    ensures
        same_tokens(t1, t2),
{
    assert forall|i: int| 0 <= i < t1.len() implies same_token(#[trigger] t1[i], t2[i]) by {
        let w = ws[i];
        assert(word_token(w, is_identifier_word(w), is_literal_word(w), t1[i]));
        assert(word_token(w, is_identifier_word(w), is_literal_word(w), t2[i]));
    }
}

/// Lexing and parsing the same source twice gives the same tree: any two
/// token sequences that the lexer may produce for the same words parse to
/// identical programs (or to the same error).
pub proof fn lemma_pipeline_deterministic(
    ws: Seq<Seq<char>>,
    t1: Seq<LexToken>,
    t2: Seq<LexToken>,
)
    requires
        tokens_of_words(ws, t1),
        tokens_of_words(ws, t2),
    ensures
        parse_program(t1) == parse_program(t2),
{
    lemma_tokens_of_same_words(ws, t1, t2);
    lemma_same_program(t1, t2);
}


/// The code generated for an expression computes the expression's value:
/// its text is the text of `expression_instrs(e)`, and run from any machine
/// state those instructions leave the value in `%eax` and the stack as they
/// found it. Binary operators thus combine their operands in source order.
pub proof fn lemma_code_computes_value(e: ExpressionModel, m: Machine)
    requires
        expression_value(e) is Some,
    ensures
        expression_code(e) == render(expression_instrs(e)),
        run(expression_instrs(e), m) is Some,
        run(expression_instrs(e), m)->Some_0.eax == expression_value(e)->Some_0,
        run(expression_instrs(e), m)->Some_0.stack == m.stack,
{
    lemma_expression_text(e);
    lemma_expression_runs(e, m);
}

/// Logical negation always leaves exactly 0 or 1 in the accumulator.
pub proof fn lemma_logical_negation_is_boolean(f: FactorModel, m: Machine)
    requires
        factor_value(f) is Some,
    ensures
        ({
            let g = FactorModel::UnOp(crate::ast::UniOperator::LogicalNegation, Box::new(f));
            &&& factor_code(g) == render(factor_instrs(g))
            &&& run(factor_instrs(g), m) is Some
            &&& run(factor_instrs(g), m)->Some_0.eax == 0 || run(factor_instrs(g), m)->Some_0.eax
                == 1
        }),
{
    let g = FactorModel::UnOp(crate::ast::UniOperator::LogicalNegation, Box::new(f));
    lemma_factor_text(g);
    lemma_factor_runs(g, m);
}


/// The text of a whole program is its function's header, the instructions
/// of its returned expression, and `ret`; run from any machine state, those
/// instructions leave the returned value in `%eax`.
pub proof fn lemma_program_computes_value(name: Seq<char>, e: ExpressionModel, m: Machine)
    requires
        expression_value(e) is Some,
    ensures
        program_code(
            ProgramModel::Declaration(
                FunctionDeclModel { name, body: StatementModel::Return(e) },
            ),
        ) == function_header(name) + render(expression_instrs(e)) + "ret\n"@,
        run(expression_instrs(e), m) is Some,
        run(expression_instrs(e), m)->Some_0.eax == expression_value(e)->Some_0,
{
    lemma_code_computes_value(e, m);
    let h = function_header(name);
    assert(".globl "@ + name + "\n"@ + name + ":\n"@ + (expression_code(e) + "ret\n"@) =~= h
        + expression_code(e) + "ret\n"@);
}


/// The logical-negation template, run with any 32-bit value `v` in `%eax`,
/// leaves exactly `1` if `v` is zero and `0` otherwise, and keeps the stack.
pub proof fn lemma_logical_negation_template(m: Machine)
    requires
        crate::machine::is_i32(m.eax),
    ensures
        unary_code(crate::ast::UniOperator::LogicalNegation) == render(
            unary_instrs(crate::ast::UniOperator::LogicalNegation),
        ),
        run(unary_instrs(crate::ast::UniOperator::LogicalNegation), m) is Some,
        run(unary_instrs(crate::ast::UniOperator::LogicalNegation), m)->Some_0.eax == if m.eax
            == 0 {
            1int
        } else {
            0int
        },
        run(unary_instrs(crate::ast::UniOperator::LogicalNegation), m)->Some_0.stack == m.stack,
{
    lemma_unary_text(crate::ast::UniOperator::LogicalNegation);
    lemma_run_unary(crate::ast::UniOperator::LogicalNegation, m);
}

/// A unary operator's code is its operand's code followed by the operator's
/// template, and running it runs the operand first, then the template on the
/// operand's result. So nested operators apply innermost first.
pub proof fn lemma_unary_runs_after_operand(
    op: crate::ast::UniOperator,
    f: FactorModel,
    m: Machine,
)
    ensures
        factor_code(FactorModel::UnOp(op, Box::new(f))) == factor_code(f) + unary_code(op),
        factor_instrs(FactorModel::UnOp(op, Box::new(f))) == factor_instrs(f) + unary_instrs(op),
        run(factor_instrs(FactorModel::UnOp(op, Box::new(f))), m) == match run(
            factor_instrs(f),
            m,
        ) {
            Some(m2) => run(unary_instrs(op), m2),
            None => None,
        },
{
    lemma_run_concat(factor_instrs(f), unary_instrs(op), m);
}

} // verus!
