use vstd::prelude::*;

use crate::error::CompileError;
use crate::lexxer::LexToken;

verus! {

/// An integer literal, kept as its decimal text.
#[derive(Debug)]
pub enum Constant {
    Integer(String),
}

#[derive(Debug, Clone, Copy, PartialEq, Eq, Structural)]
pub enum UniOperator {
    Negation,
    BitwiseComplement,
    LogicalNegation,
}

#[derive(Debug, Clone, Copy, PartialEq, Eq, Structural)]
pub enum BiOperator {
    Addition,
    Subtraction,
    Multiplication,
    Division,
}

/// `T0 (+|- T1) (+|- T2) ...`, evaluated from left to right.
#[derive(Debug)]
pub enum Expression {
    Term(Box<Term>, Vec<(BiOperator, Term)>),
}

/// `F0 (*|/ F1) (*|/ F2) ...`, evaluated from left to right.
#[derive(Debug)]
pub enum Term {
    Factor(Factor, Vec<(BiOperator, Factor)>),
}

#[derive(Debug)]
pub enum Factor {
    Constant(Constant),
    UnOp(UniOperator, Box<Factor>),
    Expr(Expression),
}

#[derive(Debug)]
pub enum Statement {
    Return(Expression),
}

#[derive(Debug)]
pub struct FunctionDecl {
    pub name: String,
    pub body: Statement,
}

#[derive(Debug)]
pub enum Program {
    Declaration(FunctionDecl),
}

// ---------------------------------------------------------------------------
// Mathematical models of the tree: the same shapes, over `Seq` and text.

pub enum FactorModel {
    Constant(Seq<char>),
    UnOp(UniOperator, Box<FactorModel>),
    Expr(Box<ExpressionModel>),
}

pub struct TermModel {
    pub first: FactorModel,
    pub rest: Seq<(BiOperator, FactorModel)>,
}

pub struct ExpressionModel {
    pub first: TermModel,
    pub rest: Seq<(BiOperator, TermModel)>,
}

pub enum StatementModel {
    Return(ExpressionModel),
}

pub struct FunctionDeclModel {
    pub name: Seq<char>,
    pub body: StatementModel,
}

pub enum ProgramModel {
    Declaration(FunctionDeclModel),
}

pub open spec fn factor_view(f: Factor) -> FactorModel
    decreases f,
{
    match f {
        Factor::Constant(Constant::Integer(s)) => FactorModel::Constant(s@),
        Factor::UnOp(op, g) => FactorModel::UnOp(op, Box::new(factor_view(*g))),
        Factor::Expr(e) => FactorModel::Expr(Box::new(expression_view(e))),
    }
}

pub open spec fn factor_chain_view(s: Seq<(BiOperator, Factor)>) -> Seq<(BiOperator, FactorModel)>
    decreases s,
{
    if s.len() == 0 {
        Seq::empty()
    } else {
        factor_chain_view(s.drop_last()).push((s.last().0, factor_view(s.last().1)))
    }
}

pub open spec fn term_view(t: Term) -> TermModel
    decreases t,
{
    match t {
        Term::Factor(f, rest) => TermModel { first: factor_view(f), rest: factor_chain_view(rest@) },
    }
}

pub open spec fn term_chain_view(s: Seq<(BiOperator, Term)>) -> Seq<(BiOperator, TermModel)>
    decreases s,
{
    if s.len() == 0 {
        Seq::empty()
    } else {
        term_chain_view(s.drop_last()).push((s.last().0, term_view(s.last().1)))
    }
}

pub open spec fn expression_view(e: Expression) -> ExpressionModel
    decreases e,
{
    match e {
        Expression::Term(t, rest) => ExpressionModel {
            first: term_view(*t),
            rest: term_chain_view(rest@),
        },
    }
}

pub open spec fn statement_view(s: Statement) -> StatementModel {
    match s {
        Statement::Return(e) => StatementModel::Return(expression_view(e)),
    }
}

pub open spec fn program_view(p: Program) -> ProgramModel {
    match p {
        Program::Declaration(d) => ProgramModel::Declaration(
            FunctionDeclModel { name: d.name@, body: statement_view(d.body) },
        ),
    }
}

// ---------------------------------------------------------------------------
// Integer literals.

pub open spec fn is_digit(c: char) -> bool {
    '0' <= c && c <= '9'
}

/// The value of a string of decimal digits.
pub open spec fn decimal_value(s: Seq<char>) -> int
    decreases s.len(),
{
    if s.len() == 0 {
        0
    } else {
        decimal_value(s.drop_last()) * 10 + (s.last() as int - '0' as int)
    }
}

/// Digits only, at least one, and a value that a signed 32-bit integer holds.
pub open spec fn is_i32_literal(s: Seq<char>) -> bool {
    &&& s.len() > 0
    &&& forall|i: int| 0 <= i < s.len() ==> is_digit(#[trigger] s[i])
    &&& decimal_value(s) <= i32::MAX
}

// ---------------------------------------------------------------------------
// The grammar, as recursive descent over a token sequence. Each rule starts
// at a position and yields the node and the position just past it.

pub open spec fn spec_unary(t: LexToken) -> Option<UniOperator> {
    match t {
        LexToken::Negation => Some(UniOperator::Negation),
        LexToken::BitwiseComplement => Some(UniOperator::BitwiseComplement),
        LexToken::LogicalNegation => Some(UniOperator::LogicalNegation),
        _ => None,
    }
}

pub open spec fn spec_binary(t: LexToken) -> Option<BiOperator> {
    match t {
        LexToken::Addition => Some(BiOperator::Addition),
        LexToken::Negation => Some(BiOperator::Subtraction),
        LexToken::Multiplication => Some(BiOperator::Multiplication),
        LexToken::Division => Some(BiOperator::Division),
        _ => None,
    }
}

pub open spec fn is_additive(t: LexToken) -> bool {
    t is Addition || t is Negation
}

pub open spec fn is_multiplicative(t: LexToken) -> bool {
    t is Multiplication || t is Division
}

/// The error for a token that is not the one a rule needs at `pos`.
pub open spec fn error_at(t: Seq<LexToken>, pos: int) -> CompileError {
    if pos >= t.len() {
        CompileError::IncompleteInput
    } else {
        CompileError::Syntax(pos as usize)
    }
}

/// `Factor := Constant | UnaryOp Factor | "(" Expression ")"`
pub open spec fn parse_factor(t: Seq<LexToken>, pos: int) -> Result<(FactorModel, int), CompileError>
    decreases t.len() - pos, 0int,
{
    if pos < 0 || pos >= t.len() {
        Err(CompileError::IncompleteInput)
    } else {
        match t[pos] {
            LexToken::OpenParenth => match parse_expression(t, pos + 1) {
                Ok((e, p)) => if p < t.len() && t[p] is CloseParenth {
                    Ok((FactorModel::Expr(Box::new(e)), p + 1))
                } else {
                    Err(error_at(t, p))
                },
                Err(err) => Err(err),
            },
            LexToken::IntLiteral(s) => if is_i32_literal(s@) {
                Ok((FactorModel::Constant(s@), pos + 1))
            } else {
                Err(CompileError::Syntax(pos as usize))
            },
            _ => match spec_unary(t[pos]) {
                Some(op) => match parse_factor(t, pos + 1) {
                    Ok((f, p)) => Ok((FactorModel::UnOp(op, Box::new(f)), p)),
                    Err(err) => Err(err),
                },
                None => Err(CompileError::Syntax(pos as usize)),
            },
        }
    }
}

/// The `(*|/ Factor)*` tail of a term, starting at `pos`.
pub open spec fn parse_term_rest(t: Seq<LexToken>, pos: int) -> Result<
    (Seq<(BiOperator, FactorModel)>, int),
    CompileError,
>
    decreases t.len() - pos, 1int,
{
    if 0 <= pos < t.len() && is_multiplicative(t[pos]) {
        match parse_factor(t, pos + 1) {
            Ok((f, p)) => if pos < p <= t.len() {
                match parse_term_rest(t, p) {
                    Ok((rest, q)) => Ok((seq![(spec_binary(t[pos]).unwrap(), f)] + rest, q)),
                    Err(err) => Err(err),
                }
            } else {
                Err(CompileError::IncompleteInput)
            },
            Err(err) => Err(err),
        }
    } else {
        Ok((Seq::empty(), pos))
    }
}

/// `Term := Factor (("*" | "/") Factor)*`
pub open spec fn parse_term(t: Seq<LexToken>, pos: int) -> Result<(TermModel, int), CompileError>
    decreases t.len() - pos, 2int,
{
    match parse_factor(t, pos) {
        Ok((f, p)) => if pos < p <= t.len() {
            match parse_term_rest(t, p) {
                Ok((rest, q)) => Ok((TermModel { first: f, rest }, q)),
                Err(err) => Err(err),
            }
        } else {
            Err(CompileError::IncompleteInput)
        },
        Err(err) => Err(err),
    }
}

/// The `(+|- Term)*` tail of an expression, starting at `pos`.
pub open spec fn parse_expression_rest(t: Seq<LexToken>, pos: int) -> Result<
    (Seq<(BiOperator, TermModel)>, int),
    CompileError,
>
    decreases t.len() - pos, 3int,
{
    if 0 <= pos < t.len() && is_additive(t[pos]) {
        match parse_term(t, pos + 1) {
            Ok((f, p)) => if pos < p <= t.len() {
                match parse_expression_rest(t, p) {
                    Ok((rest, q)) => Ok((seq![(spec_binary(t[pos]).unwrap(), f)] + rest, q)),
                    Err(err) => Err(err),
                }
            } else {
                Err(CompileError::IncompleteInput)
            },
            Err(err) => Err(err),
        }
    } else {
        Ok((Seq::empty(), pos))
    }
}

/// `Expression := Term (("+" | "-") Term)*`
pub open spec fn parse_expression(t: Seq<LexToken>, pos: int) -> Result<
    (ExpressionModel, int),
    CompileError,
>
    decreases t.len() - pos, 4int,
{
    match parse_term(t, pos) {
        Ok((f, p)) => if pos < p <= t.len() {
            match parse_expression_rest(t, p) {
                Ok((rest, q)) => Ok((ExpressionModel { first: f, rest }, q)),
                Err(err) => Err(err),
            }
        } else {
            Err(CompileError::IncompleteInput)
        },
        Err(err) => Err(err),
    }
}

/// `Statement := "return" Expression ";"`
pub open spec fn parse_statement(t: Seq<LexToken>, pos: int) -> Result<
    (StatementModel, int),
    CompileError,
> {
    if !(0 <= pos < t.len() && t[pos] is Return) {
        Err(error_at(t, pos))
    } else {
        match parse_expression(t, pos + 1) {
            Ok((e, p)) => if p < t.len() && t[p] is Semicolon {
                Ok((StatementModel::Return(e), p + 1))
            } else {
                Err(error_at(t, p))
            },
            Err(err) => Err(err),
        }
    }
}

/// The five tokens that open a function after its name: `( ) {`.
pub open spec fn header_token_ok(t: Seq<LexToken>, pos: int, k: int) -> bool {
    pos + k < t.len() && if k == 0 {
        t[pos + k] is Int
    } else if k == 1 {
        t[pos + k] is Identifier
    } else if k == 2 {
        t[pos + k] is OpenParenth
    } else if k == 3 {
        t[pos + k] is CloseParenth
    } else {
        t[pos + k] is OpenBrace
    }
}

/// The first of the five opening tokens of a function that is wrong.
pub open spec fn header_error(t: Seq<LexToken>, pos: int) -> Option<int> {
    if !header_token_ok(t, pos, 0) {
        Some(pos)
    } else if !header_token_ok(t, pos, 1) {
        Some(pos + 1)
    } else if !header_token_ok(t, pos, 2) {
        Some(pos + 2)
    } else if !header_token_ok(t, pos, 3) {
        Some(pos + 3)
    } else if !header_token_ok(t, pos, 4) {
        Some(pos + 4)
    } else {
        None
    }
}

/// `FunctionDecl := "int" Identifier "(" ")" "{" Statement "}"`
pub open spec fn parse_function(t: Seq<LexToken>, pos: int) -> Result<
    (FunctionDeclModel, int),
    CompileError,
> {
    match header_error(t, pos) {
        Some(p) => Err(error_at(t, p)),
        None => match parse_statement(t, pos + 5) {
            Ok((s, p)) => if p < t.len() && t[p] is CloseBrace {
                Ok((FunctionDeclModel { name: t[pos + 1]->Identifier_0@, body: s }, p + 1))
            } else {
                Err(error_at(t, p))
            },
            Err(err) => Err(err),
        },
    }
}

/// `Program := FunctionDecl`, from the first token. Tokens after the
/// function's closing brace are not read.
pub open spec fn parse_program(t: Seq<LexToken>) -> Result<ProgramModel, CompileError> {
    match parse_function(t, 0) {
        Ok((d, _)) => Ok(ProgramModel::Declaration(d)),
        Err(err) => Err(err),
    }
}


// ---------------------------------------------------------------------------
// How an executable parse result stands to the grammar's.

pub open spec fn factor_result(
    r: Result<(Factor, usize), CompileError>,
    s: Result<(FactorModel, int), CompileError>,
) -> bool {
    match (r, s) {
        (Ok((f, p)), Ok((m, q))) => factor_view(f) == m && p == q,
        (Err(a), Err(b)) => a == b,
        _ => false,
    }
}

pub open spec fn term_result(
    r: Result<(Term, usize), CompileError>,
    s: Result<(TermModel, int), CompileError>,
) -> bool {
    match (r, s) {
        (Ok((x, p)), Ok((m, q))) => term_view(x) == m && p == q,
        (Err(a), Err(b)) => a == b,
        _ => false,
    }
}

pub open spec fn expression_result(
    r: Result<(Expression, usize), CompileError>,
    s: Result<(ExpressionModel, int), CompileError>,
) -> bool {
    match (r, s) {
        (Ok((x, p)), Ok((m, q))) => expression_view(x) == m && p == q,
        (Err(a), Err(b)) => a == b,
        _ => false,
    }
}

pub open spec fn statement_result(
    r: Result<(Statement, usize), CompileError>,
    s: Result<(StatementModel, int), CompileError>,
) -> bool {
    match (r, s) {
        (Ok((x, p)), Ok((m, q))) => statement_view(x) == m && p == q,
        (Err(a), Err(b)) => a == b,
        _ => false,
    }
}

pub open spec fn function_result(
    r: Result<(FunctionDecl, usize), CompileError>,
    s: Result<(FunctionDeclModel, int), CompileError>,
) -> bool {
    match (r, s) {
        (Ok((x, p)), Ok((m, q))) => x.name@ == m.name && statement_view(x.body) == m.body && p
            == q,
        (Err(a), Err(b)) => a == b,
        _ => false,
    }
}

/// A chain parsed so far, put in front of the chain still to come.
pub open spec fn prepend_chain<A>(
    prefix: Seq<A>,
    r: Result<(Seq<A>, int), CompileError>,
) -> Result<(Seq<A>, int), CompileError> {
    match r {
        Ok((s, q)) => Ok((prefix + s, q)),
        Err(e) => Err(e),
    }
}

fn error_at_exec(tokens: &Vec<LexToken>, pos: usize) -> (r: CompileError)
    ensures
        r == error_at(tokens@, pos as int),
{
    if pos >= tokens.len() {
        CompileError::IncompleteInput
    } else {
        CompileError::Syntax(pos)
    }
}

fn additive_at(tokens: &Vec<LexToken>, pos: usize) -> (r: bool)
    ensures
        r == (pos < tokens.len() && is_additive(tokens@[pos as int])),
{
    pos < tokens.len() && match &tokens[pos] {
        LexToken::Addition | LexToken::Negation => true,
        _ => false,
    }
}

fn multiplicative_at(tokens: &Vec<LexToken>, pos: usize) -> (r: bool)
    ensures
        r == (pos < tokens.len() && is_multiplicative(tokens@[pos as int])),
{
    pos < tokens.len() && match &tokens[pos] {
        LexToken::Multiplication | LexToken::Division => true,
        _ => false,
    }
}

impl UniOperator {
    /// The unary operator that a token stands for, if any.
    pub fn new(token: &LexToken) -> (r: Option<UniOperator>)
        ensures
            r == spec_unary(*token),
    {
        match token {
            LexToken::Negation => Some(UniOperator::Negation),
            LexToken::BitwiseComplement => Some(UniOperator::BitwiseComplement),
            LexToken::LogicalNegation => Some(UniOperator::LogicalNegation),
            _ => None,
        }
    }
}

impl BiOperator {
    /// The binary operator that a token stands for, if any; `-` is subtraction.
    pub fn new(token: &LexToken) -> (r: Option<BiOperator>)
        ensures
            r == spec_binary(*token),
    {
        match token {
            LexToken::Addition => Some(BiOperator::Addition),
            LexToken::Negation => Some(BiOperator::Subtraction),
            LexToken::Multiplication => Some(BiOperator::Multiplication),
            LexToken::Division => Some(BiOperator::Division),
            _ => None,
        }
    }
}

proof fn lemma_decimal_nonnegative(s: Seq<char>)
    requires
        forall|j: int| 0 <= j < s.len() ==> is_digit(#[trigger] s[j]),
    ensures
        decimal_value(s) >= 0,
    decreases s.len(),
{
    if s.len() > 0 {
        let d = s.drop_last();
        assert(forall|j: int| 0 <= j < d.len() ==> d[j] == s[j]);
        lemma_decimal_nonnegative(d);
        assert(is_digit(s[s.len() - 1]));
    }
}

proof fn lemma_decimal_prefix(s: Seq<char>, i: int)
    requires
        0 <= i <= s.len(),
        forall|j: int| 0 <= j < s.len() ==> is_digit(#[trigger] s[j]),
    ensures
        decimal_value(s.subrange(0, i)) <= decimal_value(s),
    decreases s.len(),
{
    if i == s.len() {
        assert(s.subrange(0, i) =~= s);
    } else {
        let d = s.drop_last();
        assert(d.subrange(0, i) =~= s.subrange(0, i));
        assert(forall|j: int| 0 <= j < d.len() ==> d[j] == s[j]);
        lemma_decimal_prefix(d, i);
        lemma_decimal_nonnegative(d);
        assert(is_digit(s[s.len() - 1]));
        assert(d.subrange(0, d.len() as int) =~= d);
    }
}

/// Whether a text is a decimal literal that fits in a signed 32-bit integer.
fn fits_i32(s: &str) -> (r: bool)
    ensures
        r == is_i32_literal(s@),
{
    let n = s.unicode_len();
    if n == 0 {
        return false;
    }
    let mut value: u64 = 0;
    let mut i: usize = 0;
    while i < n
        invariant
            i <= n,
            n == s@.len(),
            value as int == decimal_value(s@.subrange(0, i as int)),
            value <= i32::MAX,
            forall|j: int| 0 <= j < i ==> is_digit(#[trigger] s@[j]),
        decreases n - i,
    {
        let c = s.get_char(i);
        if !('0' <= c && c <= '9') {
            return false;
        }
        let d = (c as u32 - '0' as u32) as u64;
        assert(s@.subrange(0, i + 1).drop_last() =~= s@.subrange(0, i as int));
        value = value * 10 + d;
        i = i + 1;
        if value > 2147483647 {
            proof {
                if forall|j: int| 0 <= j < s@.len() ==> is_digit(#[trigger] s@[j]) {
                    lemma_decimal_prefix(s@, i as int);
                }
            }
            return false;
        }
    }
    assert(s@.subrange(0, n as int) =~= s@);
    true
}

impl Constant {
    /// The constant of an integer-literal token whose text is a signed
    /// 32-bit integer; `None` for any other token.
    pub fn new(token: &LexToken) -> (r: Option<Constant>)
        ensures
            r is Some <==> (token is IntLiteral && is_i32_literal(token->IntLiteral_0@)),
            r is Some ==> r->Some_0->Integer_0@ == token->IntLiteral_0@,
    {
        match token {
            LexToken::IntLiteral(s) => {
                if fits_i32(s.as_str()) {
                    Some(Constant::Integer(s.clone()))
                } else {
                    None
                }
            },
            _ => None,
        }
    }
}


impl Factor {
    /// Parses `Factor := Constant | UnaryOp Factor | "(" Expression ")"` from
    /// `pos`, returning the factor and the position just past it.
    pub fn new(tokens: &Vec<LexToken>, pos: usize) -> (r: Result<(Factor, usize), CompileError>)
        requires
            pos <= tokens.len(),
        ensures
            factor_result(r, parse_factor(tokens@, pos as int)),
            r is Ok ==> pos < r->Ok_0.1 <= tokens.len(),
        decreases tokens.len() - pos, 0int,
    {
        if pos >= tokens.len() {
            return Err(CompileError::IncompleteInput);
        }
        match &tokens[pos] {
            LexToken::OpenParenth => {
                match Expression::new(tokens, pos + 1) {
                    Ok((e, p)) => {
                        if p < tokens.len() && match &tokens[p] {
                            LexToken::CloseParenth => true,
                            _ => false,
                        } {
                            Ok((Factor::Expr(e), p + 1))
                        } else {
                            Err(error_at_exec(tokens, p))
                        }
                    },
                    Err(err) => Err(err),
                }
            },
            LexToken::IntLiteral(_) => {
                match Constant::new(&tokens[pos]) {
                    Some(c) => Ok((Factor::Constant(c), pos + 1)),
                    None => Err(CompileError::Syntax(pos)),
                }
            },
            _ => {
                match UniOperator::new(&tokens[pos]) {
                    Some(op) => {
                        match Factor::new(tokens, pos + 1) {
                            Ok((f, p)) => Ok((Factor::UnOp(op, Box::new(f)), p)),
                            Err(err) => Err(err),
                        }
                    },
                    None => Err(CompileError::Syntax(pos)),
                }
            },
        }
    }
}

impl Term {
    /// Parses `Term := Factor (("*" | "/") Factor)*` from `pos`; the chain
    /// ends at the first token that is neither `*` nor `/`.
    pub fn new(tokens: &Vec<LexToken>, pos: usize) -> (r: Result<(Term, usize), CompileError>)
        requires
            pos <= tokens.len(),
        ensures
            term_result(r, parse_term(tokens@, pos as int)),
            r is Ok ==> pos < r->Ok_0.1 <= tokens.len(),
        decreases tokens.len() - pos, 2int,
    {
        let (first, start) = match Factor::new(tokens, pos) {
            Ok(x) => x,
            Err(err) => return Err(err),
        };
        let mut rest: Vec<(BiOperator, Factor)> = Vec::new();
        let mut p = start;
        while multiplicative_at(tokens, p)
            invariant
                pos < start <= p <= tokens.len(),
                factor_result(Ok((first, start)), parse_factor(tokens@, pos as int)),
                parse_term_rest(tokens@, start as int) == prepend_chain(
                    factor_chain_view(rest@),
                    parse_term_rest(tokens@, p as int),
                ),
            decreases tokens.len() - p,
        {
            let op = BiOperator::new(&tokens[p]).unwrap();
            match Factor::new(tokens, p + 1) {
                Ok((f, q)) => {
                    let ghost old_rest = rest@;
                    rest.push((op, f));
                    proof {
                        assert(rest@.drop_last() =~= old_rest);
                        let fm = factor_view(f);
                        assert(factor_chain_view(old_rest).push((op, fm)) + parse_term_rest(
                            tokens@,
                            q as int,
                        )->Ok_0.0 =~= factor_chain_view(old_rest) + (seq![(op, fm)]
                            + parse_term_rest(tokens@, q as int)->Ok_0.0));
                    }
                    p = q;
                },
                Err(err) => {
                    return Err(err);
                },
            }
        }
        proof {
            assert(factor_chain_view(rest@) + Seq::<(BiOperator, FactorModel)>::empty()
                =~= factor_chain_view(rest@));
        }
        Ok((Term::Factor(first, rest), p))
    }
}

impl Expression {
    /// Parses `Expression := Term (("+" | "-") Term)*` from `pos`; the chain
    /// ends at the first token that is neither `+` nor `-`.
    pub fn new(tokens: &Vec<LexToken>, pos: usize) -> (r: Result<(Expression, usize), CompileError>)
        requires
            pos <= tokens.len(),
        ensures
            expression_result(r, parse_expression(tokens@, pos as int)),
            r is Ok ==> pos < r->Ok_0.1 <= tokens.len(),
        decreases tokens.len() - pos, 4int,
    {
        let (first, start) = match Term::new(tokens, pos) {
            Ok(x) => x,
            Err(err) => return Err(err),
        };
        let mut rest: Vec<(BiOperator, Term)> = Vec::new();
        let mut p = start;
        while additive_at(tokens, p)
            invariant
                pos < start <= p <= tokens.len(),
                term_result(Ok((first, start)), parse_term(tokens@, pos as int)),
                parse_expression_rest(tokens@, start as int) == prepend_chain(
                    term_chain_view(rest@),
                    parse_expression_rest(tokens@, p as int),
                ),
            decreases tokens.len() - p,
        {
            let op = BiOperator::new(&tokens[p]).unwrap();
            match Term::new(tokens, p + 1) {
                Ok((next, q)) => {
                    let ghost old_rest = rest@;
                    rest.push((op, next));
                    proof {
                        assert(rest@.drop_last() =~= old_rest);
                        let fm = term_view(next);
                        assert(term_chain_view(old_rest).push((op, fm)) + parse_expression_rest(
                            tokens@,
                            q as int,
                        )->Ok_0.0 =~= term_chain_view(old_rest) + (seq![(op, fm)]
                            + parse_expression_rest(tokens@, q as int)->Ok_0.0));
                    }
                    p = q;
                },
                Err(err) => {
                    return Err(err);
                },
            }
        }
        proof {
            assert(term_chain_view(rest@) + Seq::<(BiOperator, TermModel)>::empty()
                =~= term_chain_view(rest@));
        }
        Ok((Expression::Term(Box::new(first), rest), p))
    }
}


impl Statement {
    /// Parses `Statement := "return" Expression ";"` from `pos`.
    pub fn new(tokens: &Vec<LexToken>, pos: usize) -> (r: Result<(Statement, usize), CompileError>)
        requires
            pos <= tokens.len(),
        ensures
            statement_result(r, parse_statement(tokens@, pos as int)),
            r is Ok ==> pos < r->Ok_0.1 <= tokens.len(),
    {
        if !(pos < tokens.len() && match &tokens[pos] {
            LexToken::Return => true,
            _ => false,
        }) {
            return Err(error_at_exec(tokens, pos));
        }
        match Expression::new(tokens, pos + 1) {
            Ok((e, p)) => {
                if p < tokens.len() && match &tokens[p] {
                    LexToken::Semicolon => true,
                    _ => false,
                } {
                    Ok((Statement::Return(e), p + 1))
                } else {
                    Err(error_at_exec(tokens, p))
                }
            },
            Err(err) => Err(err),
        }
    }
}

fn header_token_ok_exec(tokens: &Vec<LexToken>, pos: usize, k: usize) -> (r: bool)
    requires
        pos <= tokens.len(),
        k < 5,
    ensures
        r == header_token_ok(tokens@, pos as int, k as int),
{
    if tokens.len() - pos <= k {
        return false;
    }
    match &tokens[pos + k] {
        LexToken::Int => k == 0,
        LexToken::Identifier(_) => k == 1,
        LexToken::OpenParenth => k == 2,
        LexToken::CloseParenth => k == 3,
        LexToken::OpenBrace => k == 4,
        _ => false,
    }
}

impl FunctionDecl {
    /// Parses `FunctionDecl := "int" Identifier "(" ")" "{" Statement "}"`
    /// from `pos`.
    pub fn new(tokens: &Vec<LexToken>, pos: usize) -> (r: Result<(FunctionDecl, usize), CompileError>)
        requires
            pos <= tokens.len(),
        ensures
            function_result(r, parse_function(tokens@, pos as int)),
            r is Ok ==> pos < r->Ok_0.1 <= tokens.len(),
    {
        let mut k: usize = 0;
        while k < 5
            invariant
                k <= 5,
                pos <= tokens.len(),
                forall|j: int| 0 <= j < k ==> header_token_ok(tokens@, pos as int, j),
            decreases 5 - k,
        {
            if tokens.len() - pos <= k {
                return Err(CompileError::IncompleteInput);
            }
            if !header_token_ok_exec(tokens, pos, k) {
                return Err(CompileError::Syntax(pos + k));
            }
            k = k + 1;
        }
        let name = match &tokens[pos + 1] {
            LexToken::Identifier(id) => id.clone(),
            _ => String::new(),
        };
        match Statement::new(tokens, pos + 5) {
            Ok((body, p)) => {
                if p < tokens.len() && match &tokens[p] {
                    LexToken::CloseBrace => true,
                    _ => false,
                } {
                    Ok((FunctionDecl { name, body }, p + 1))
                } else {
                    Err(error_at_exec(tokens, p))
                }
            },
            Err(err) => Err(err),
        }
    }
}

impl Program {
    /// Parses `Program := FunctionDecl` from the first token. Tokens after
    /// the function's closing brace are not read.
    pub fn new(tokens: &Vec<LexToken>) -> (r: Result<Program, CompileError>)
        ensures
            match (r, parse_program(tokens@)) {
                (Ok(p), Ok(m)) => program_view(p) == m,
                (Err(a), Err(b)) => a == b,
                _ => false,
            },
    {
        match FunctionDecl::new(tokens, 0) {
            Ok((decl, _)) => Ok(Program::Declaration(decl)),
            Err(err) => Err(err),
        }
    }
}

} // verus!
