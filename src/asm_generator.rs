use vstd::prelude::*;
use vstd::string::StringExecFns;

use crate::ast::{
    expression_view, factor_chain_view, factor_view, program_view, statement_view, term_chain_view,
    term_view, BiOperator, Constant, Expression, ExpressionModel, Factor, FactorModel,
    FunctionDecl, FunctionDeclModel, Program, ProgramModel, Statement, StatementModel, Term,
    TermModel, UniOperator,
};

verus! {

broadcast use vstd::std_specs::vec::axiom_vec_index_decreases;

// ---------------------------------------------------------------------------
// The assembly text of each node, over the tree's model. Every value passes
// through `%eax`; a binary operator keeps its left operand on the stack while
// the right operand is computed, then combines the two with the left operand
// in `%eax` and the right one in `%ecx`.

/// A literal's digits without their leading zeros; a literal of zeros only
/// keeps one. An assembler reads an immediate such as `$010` as octal, so
/// the emitted immediate starts with `0` only where it is `0`.
pub open spec fn without_leading_zeros(c: Seq<char>) -> Seq<char>
    decreases c.len(),
{
    if c.len() > 1 && c[0] == '0' {
        without_leading_zeros(c.subrange(1, c.len() as int))
    } else {
        c
    }
}

/// Loads the constant, written in decimal without leading zeros.
pub open spec fn constant_code(c: Seq<char>) -> Seq<char> {
    "movl $"@ + without_leading_zeros(c) + ", %eax\n"@
}

pub open spec fn unary_code(op: UniOperator) -> Seq<char> {
    match op {
        UniOperator::Negation => "neg %eax\n"@,
        UniOperator::BitwiseComplement => "not %eax\n"@,
        UniOperator::LogicalNegation => "cmpl $0, %eax\nmovl $0, %eax\nsete %al\n"@,
    }
}

pub open spec fn binary_code(op: BiOperator) -> Seq<char> {
    match op {
        BiOperator::Addition => "addl %ecx, %eax\n"@,
        BiOperator::Subtraction => "subl %ecx, %eax\n"@,
        BiOperator::Multiplication => "imull %ecx, %eax\n"@,
        BiOperator::Division => "cdq\nidivl %ecx\n"@,
    }
}

/// Combines the running value in `%eax` with the value that `right` computes.
pub open spec fn combine_code(op: BiOperator, right: Seq<char>) -> Seq<char> {
    "push %eax\n"@ + right + "movl %eax, %ecx\npop %eax\n"@ + binary_code(op)
}

pub open spec fn factor_code(f: FactorModel) -> Seq<char>
    decreases f,
{
    match f {
        FactorModel::Constant(c) => constant_code(c),
        FactorModel::UnOp(op, g) => factor_code(*g) + unary_code(op),
        FactorModel::Expr(e) => expression_code(*e),
    }
}

pub open spec fn factor_chain_code(s: Seq<(BiOperator, FactorModel)>) -> Seq<char>
    decreases s,
{
    if s.len() == 0 {
        Seq::empty()
    } else {
        factor_chain_code(s.drop_last()) + combine_code(s.last().0, factor_code(s.last().1))
    }
}

pub open spec fn term_code(t: TermModel) -> Seq<char>
    decreases t,
{
    factor_code(t.first) + factor_chain_code(t.rest)
}

pub open spec fn term_chain_code(s: Seq<(BiOperator, TermModel)>) -> Seq<char>
    decreases s,
{
    if s.len() == 0 {
        Seq::empty()
    } else {
        term_chain_code(s.drop_last()) + combine_code(s.last().0, term_code(s.last().1))
    }
}

pub open spec fn expression_code(e: ExpressionModel) -> Seq<char>
    decreases e,
{
    term_code(e.first) + term_chain_code(e.rest)
}

pub open spec fn statement_code(s: StatementModel) -> Seq<char> {
    match s {
        StatementModel::Return(e) => expression_code(e) + "ret\n"@,
    }
}

pub open spec fn function_code(d: FunctionDeclModel) -> Seq<char> {
    ".globl "@ + d.name + "\n"@ + d.name + ":\n"@ + statement_code(d.body)
}

pub open spec fn program_code(p: ProgramModel) -> Seq<char> {
    match p {
        ProgramModel::Declaration(d) => function_code(d),
    }
}

// ---------------------------------------------------------------------------

/// The assembly text of a program: the function's global symbol, its label,
/// then its body.
pub fn generate_asm(program_ast: &Program) -> (r: String)
    ensures
        r@ == program_code(program_view(*program_ast)),
{
    match program_ast {
        Program::Declaration(func_decl) => function_asm(func_decl),
    }
}

fn function_asm(func_decl: &FunctionDecl) -> (r: String)
    ensures
        r@ == function_code(
            FunctionDeclModel { name: func_decl.name@, body: statement_view(func_decl.body) },
        ),
{
    let mut out = String::from_str(".globl ");
    out.append(func_decl.name.as_str());
    out.append("\n");
    out.append(func_decl.name.as_str());
    out.append(":\n");
    let body = statement_asm(&func_decl.body);
    out.append(body.as_str());
    out
}

fn statement_asm(statement: &Statement) -> (r: String)
    ensures
        r@ == statement_code(statement_view(*statement)),
{
    match statement {
        Statement::Return(exp) => {
            let mut out = expression_asm(exp);
            out.append("ret\n");
            out
        },
    }
}

fn expression_asm(expression: &Expression) -> (r: String)
    ensures
        r@ == expression_code(expression_view(*expression)),
    decreases expression,
{
    match expression {
        Expression::Term(first, rest) => {
            let mut out = term_asm(first);
            let mut i: usize = 0;
            while i < rest.len()
                invariant
                    i <= rest.len(),
                    *rest == expression->Term_1,
                    out@ == term_code(term_view(**first)) + term_chain_code(
                        term_chain_view(rest@.subrange(0, i as int)),
                    ),
                decreases rest.len() - i,
            {
                proof {
                    assert(decreases_to!(rest => rest[i as int]));
                }
                let right = term_asm(&rest[i].1);
                let step = combine_asm(rest[i].0, right);
                proof {
                    let s = rest@.subrange(0, i + 1);
                    let prev = term_chain_view(rest@.subrange(0, i as int));
                    let item = (rest@[i as int].0, term_view(rest@[i as int].1));
                    assert(s.drop_last() =~= rest@.subrange(0, i as int));
                    assert(term_chain_view(s) == prev.push(item));
                    assert(prev.push(item).drop_last() =~= prev);
                    assert(term_code(term_view(**first)) + term_chain_code(prev) + step@ =~= term_code(term_view(**first)) + (
                    term_chain_code(prev) + step@));
                }
                out.append(step.as_str());
                i = i + 1;
            }
            assert(rest@.subrange(0, rest.len() as int) =~= rest@);
            out
        },
    }
}

fn term_asm(term: &Term) -> (r: String)
    ensures
        r@ == term_code(term_view(*term)),
    decreases term,
{
    match term {
        Term::Factor(first, rest) => {
            let mut out = factor_asm(first);
            let mut i: usize = 0;
            while i < rest.len()
                invariant
                    i <= rest.len(),
                    *rest == term->Factor_1,
                    out@ == factor_code(factor_view(*first)) + factor_chain_code(
                        factor_chain_view(rest@.subrange(0, i as int)),
                    ),
                decreases rest.len() - i,
            {
                proof {
                    assert(decreases_to!(rest => rest[i as int]));
                }
                let right = factor_asm(&rest[i].1);
                let step = combine_asm(rest[i].0, right);
                proof {
                    let s = rest@.subrange(0, i + 1);
                    let prev = factor_chain_view(rest@.subrange(0, i as int));
                    let item = (rest@[i as int].0, factor_view(rest@[i as int].1));
                    assert(s.drop_last() =~= rest@.subrange(0, i as int));
                    assert(factor_chain_view(s) == prev.push(item));
                    assert(prev.push(item).drop_last() =~= prev);
                    assert(factor_code(factor_view(*first)) + factor_chain_code(prev) + step@ =~= factor_code(factor_view(*first)) + (
                    factor_chain_code(prev) + step@));
                }
                out.append(step.as_str());
                i = i + 1;
            }
            assert(rest@.subrange(0, rest.len() as int) =~= rest@);
            out
        },
    }
}

fn factor_asm(factor: &Factor) -> (r: String)
    ensures
        r@ == factor_code(factor_view(*factor)),
    decreases factor,
{
    match factor {
        Factor::Constant(constant) => constant_asm(constant),
        Factor::UnOp(oper, inner) => {
            let mut out = factor_asm(inner);
            out.append(operator_asm(*oper).as_str());
            out
        },
        Factor::Expr(exp) => expression_asm(exp),
    }
}

/// Combines the running value with `right`, the text of the right operand.
fn combine_asm(oper: BiOperator, right: String) -> (r: String)
    ensures
        r@ == combine_code(oper, right@),
{
    let mut out = String::from_str("push %eax\n");
    out.append(right.as_str());
    out.append("movl %eax, %ecx\npop %eax\n");
    let op = match oper {
        BiOperator::Addition => "addl %ecx, %eax\n",
        BiOperator::Subtraction => "subl %ecx, %eax\n",
        BiOperator::Multiplication => "imull %ecx, %eax\n",
        BiOperator::Division => "cdq\nidivl %ecx\n",
    };
    out.append(op);
    out
}

fn operator_asm(oper: UniOperator) -> (r: String)
    ensures
        r@ == unary_code(oper),
{
    match oper {
        UniOperator::Negation => String::from_str("neg %eax\n"),
        UniOperator::BitwiseComplement => String::from_str("not %eax\n"),
        UniOperator::LogicalNegation => String::from_str("cmpl $0, %eax\nmovl $0, %eax\nsete %al\n"),
    }
}

fn constant_asm(constant: &Constant) -> (r: String)
    ensures
        r@ == constant_code(constant->Integer_0@),
{
    match constant {
        Constant::Integer(text) => {
            let digits = text.as_str();
            let n = digits.unicode_len();
            let mut start: usize = 0;
            assert(digits@.subrange(0, n as int) =~= digits@);
            while n - start > 1 && digits.get_char(start) == '0'
                invariant
                    start <= n,
                    n == digits@.len(),
                    without_leading_zeros(digits@) == without_leading_zeros(
                        digits@.subrange(start as int, n as int),
                    ),
                decreases n - start,
            {
                proof {
                    let rest = digits@.subrange(start as int, n as int);
                    assert(rest.subrange(1, rest.len() as int) =~= digits@.subrange(
                        start + 1,
                        n as int,
                    ));
                }
                start = start + 1;
            }
            let mut out = String::from_str("movl $");
            out.append(digits.substring_char(start, n));
            out.append(", %eax\n");
            out
        },
    }
}

} // verus!
