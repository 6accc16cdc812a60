//! What the generated assembly computes: the instructions the code generator
//! emits, their text, their effect on a 32-bit machine with an accumulator,
//! a scratch register and a stack, and the value each expression denotes.
use vstd::prelude::*;

use crate::asm_generator::{
    binary_code, combine_code, without_leading_zeros, expression_code, factor_chain_code, factor_code, term_chain_code,
    term_code, unary_code,
};
use crate::ast::{
    decimal_value, BiOperator, ExpressionModel, FactorModel, TermModel, UniOperator,
};

verus! {

pub enum Instr {
    /// `movl $c, %eax`, with `c` in decimal
    Load(Seq<char>),
    /// `neg %eax`
    Neg,
    /// `not %eax`
    Not,
    /// `cmpl $0, %eax`
    CmpZero,
    /// `movl $0, %eax`
    ZeroEax,
    /// `sete %al`
    SetEqual,
    /// `push %eax`
    Push,
    /// `movl %eax, %ecx`
    MoveToEcx,
    /// `pop %eax`
    Pop,
    /// `addl %ecx, %eax`
    Add,
    /// `subl %ecx, %eax`
    Sub,
    /// `imull %ecx, %eax`
    Mul,
    /// `cdq`
    SignExtend,
    /// `idivl %ecx`
    Div,
}

pub open spec fn instr_text(i: Instr) -> Seq<char> {
    match i {
        Instr::Load(c) => "movl $"@ + c + ", %eax\n"@,
        Instr::Neg => "neg %eax\n"@,
        Instr::Not => "not %eax\n"@,
        Instr::CmpZero => "cmpl $0, %eax\n"@,
        Instr::ZeroEax => "movl $0, %eax\n"@,
        Instr::SetEqual => "sete %al\n"@,
        Instr::Push => "push %eax\n"@,
        Instr::MoveToEcx => "movl %eax, %ecx\n"@,
        Instr::Pop => "pop %eax\n"@,
        Instr::Add => "addl %ecx, %eax\n"@,
        Instr::Sub => "subl %ecx, %eax\n"@,
        Instr::Mul => "imull %ecx, %eax\n"@,
        Instr::SignExtend => "cdq\n"@,
        Instr::Div => "idivl %ecx\n"@,
    }
}

/// The text of an instruction sequence, one instruction per line.
pub open spec fn render(s: Seq<Instr>) -> Seq<char>
    decreases s.len(),
{
    if s.len() == 0 {
        Seq::empty()
    } else {
        render(s.drop_last()) + instr_text(s.last())
    }
}

// ---------------------------------------------------------------------------
// The instructions of each node.

pub open spec fn unary_instrs(op: UniOperator) -> Seq<Instr> {
    match op {
        UniOperator::Negation => seq![Instr::Neg],
        UniOperator::BitwiseComplement => seq![Instr::Not],
        UniOperator::LogicalNegation => seq![Instr::CmpZero, Instr::ZeroEax, Instr::SetEqual],
    }
}

pub open spec fn binary_instrs(op: BiOperator) -> Seq<Instr> {
    match op {
        BiOperator::Addition => seq![Instr::Add],
        BiOperator::Subtraction => seq![Instr::Sub],
        BiOperator::Multiplication => seq![Instr::Mul],
        BiOperator::Division => seq![Instr::SignExtend, Instr::Div],
    }
}

pub open spec fn combine_instrs(op: BiOperator, right: Seq<Instr>) -> Seq<Instr> {
    seq![Instr::Push] + right + seq![Instr::MoveToEcx, Instr::Pop] + binary_instrs(op)
}

pub open spec fn factor_instrs(f: FactorModel) -> Seq<Instr>
    decreases f,
{
    match f {
        FactorModel::Constant(c) => seq![Instr::Load(without_leading_zeros(c))],
        FactorModel::UnOp(op, g) => factor_instrs(*g) + unary_instrs(op),
        FactorModel::Expr(e) => expression_instrs(*e),
    }
}

pub open spec fn factor_chain_instrs(s: Seq<(BiOperator, FactorModel)>) -> Seq<Instr>
    decreases s,
{
    if s.len() == 0 {
        Seq::empty()
    } else {
        factor_chain_instrs(s.drop_last()) + combine_instrs(s.last().0, factor_instrs(s.last().1))
    }
}

pub open spec fn term_instrs(t: TermModel) -> Seq<Instr>
    decreases t,
{
    factor_instrs(t.first) + factor_chain_instrs(t.rest)
}

pub open spec fn term_chain_instrs(s: Seq<(BiOperator, TermModel)>) -> Seq<Instr>
    decreases s,
{
    if s.len() == 0 {
        Seq::empty()
    } else {
        term_chain_instrs(s.drop_last()) + combine_instrs(s.last().0, term_instrs(s.last().1))
    }
}

pub open spec fn expression_instrs(e: ExpressionModel) -> Seq<Instr>
    decreases e,
{
    term_instrs(e.first) + term_chain_instrs(e.rest)
}

// ---------------------------------------------------------------------------
// The machine. Registers hold signed 32-bit values.

pub struct Machine {
    pub eax: int,
    pub ecx: int,
    pub edx: int,
    pub zero_flag: bool,
    pub stack: Seq<int>,
}

pub open spec fn is_i32(x: int) -> bool {
    i32::MIN <= x <= i32::MAX
}

/// `x` reduced to a signed 32-bit value, as 32-bit arithmetic wraps.
pub open spec fn wrap(x: int) -> int {
    let m = x % 4294967296;
    if m >= 2147483648 {
        m - 4294967296
    } else {
        m
    }
}

/// Division that rounds toward zero.
pub open spec fn trunc_div(a: int, b: int) -> int {
    let q = abs(a) / abs(b);
    if (a < 0) != (b < 0) {
        -q
    } else {
        q
    }
}

pub open spec fn abs(a: int) -> int {
    if a < 0 {
        -a
    } else {
        a
    }
}

/// An immediate of more than one digit that starts with `0`, which an
/// assembler reads as octal, not decimal.
pub open spec fn has_leading_zero(c: Seq<char>) -> bool {
    c.len() > 1 && c[0] == '0'
}

/// The machine after one instruction; `None` where the instruction faults
/// (a division by zero or whose quotient does not fit, a pop of an empty
/// stack) or where this model does not give its meaning (an immediate that
/// would be read as octal).
pub open spec fn step(m: Machine, i: Instr) -> Option<Machine> {
    match i {
        Instr::Load(c) => if has_leading_zero(c) {
            None
        } else {
            Some(Machine { eax: wrap(decimal_value(c)), ..m })
        },
        Instr::Neg => Some(Machine { eax: wrap(-m.eax), ..m }),
        Instr::Not => Some(Machine { eax: -m.eax - 1, ..m }),
        Instr::CmpZero => Some(Machine { zero_flag: m.eax == 0, ..m }),
        Instr::ZeroEax => Some(Machine { eax: 0, ..m }),
        Instr::SetEqual => Some(
            Machine { eax: m.eax - m.eax % 256 + if m.zero_flag { 1int } else { 0int }, ..m },
        ),
        Instr::Push => Some(Machine { stack: m.stack.push(m.eax), ..m }),
        Instr::MoveToEcx => Some(Machine { ecx: m.eax, ..m }),
        Instr::Pop => if m.stack.len() == 0 {
            None
        } else {
            Some(Machine { eax: m.stack.last(), stack: m.stack.drop_last(), ..m })
        },
        Instr::Add => Some(Machine { eax: wrap(m.eax + m.ecx), ..m }),
        Instr::Sub => Some(Machine { eax: wrap(m.eax - m.ecx), ..m }),
        Instr::Mul => Some(Machine { eax: wrap(m.eax * m.ecx), ..m }),
        Instr::SignExtend => Some(Machine { edx: if m.eax < 0 { -1int } else { 0int }, ..m }),
        Instr::Div => {
            let dividend = m.edx * 4294967296 + m.eax % 4294967296;
            if m.ecx == 0 || !is_i32(trunc_div(dividend, m.ecx)) {
                None
            } else {
                let q = trunc_div(dividend, m.ecx);
                Some(Machine { eax: q, edx: dividend - q * m.ecx, ..m })
            }
        },
    }
}

/// The machine after a sequence of instructions, if none faults.
pub open spec fn run(s: Seq<Instr>, m: Machine) -> Option<Machine>
    decreases s.len(),
{
    if s.len() == 0 {
        Some(m)
    } else {
        match run(s.drop_last(), m) {
            Some(m2) => step(m2, s.last()),
            None => None,
        }
    }
}

// ---------------------------------------------------------------------------
// The value of each node under 32-bit arithmetic; `None` where a division
// by zero or an overflowing division occurs.

pub open spec fn unary_value(op: UniOperator, v: int) -> int {
    match op {
        UniOperator::Negation => wrap(-v),
        UniOperator::BitwiseComplement => -v - 1,
        UniOperator::LogicalNegation => if v == 0 {
            1
        } else {
            0
        },
    }
}

pub open spec fn binary_value(op: BiOperator, a: int, b: int) -> Option<int> {
    match op {
        BiOperator::Addition => Some(wrap(a + b)),
        BiOperator::Subtraction => Some(wrap(a - b)),
        BiOperator::Multiplication => Some(wrap(a * b)),
        BiOperator::Division => if b == 0 || !is_i32(trunc_div(a, b)) {
            None
        } else {
            Some(trunc_div(a, b))
        },
    }
}

pub open spec fn factor_value(f: FactorModel) -> Option<int>
    decreases f,
{
    match f {
        FactorModel::Constant(c) => Some(wrap(decimal_value(c))),
        FactorModel::UnOp(op, g) => match factor_value(*g) {
            Some(v) => Some(unary_value(op, v)),
            None => None,
        },
        FactorModel::Expr(e) => expression_value(*e),
    }
}

/// The running value of a chain after its operators, folded from the left.
pub open spec fn factor_chain_value(first: Option<int>, s: Seq<(BiOperator, FactorModel)>) -> Option<int>
    decreases s,
{
    if s.len() == 0 {
        first
    } else {
        match (factor_chain_value(first, s.drop_last()), factor_value(s.last().1)) {
            (Some(a), Some(b)) => binary_value(s.last().0, a, b),
            _ => None,
        }
    }
}

pub open spec fn term_value(t: TermModel) -> Option<int>
    decreases t,
{
    factor_chain_value(factor_value(t.first), t.rest)
}

pub open spec fn term_chain_value(first: Option<int>, s: Seq<(BiOperator, TermModel)>) -> Option<int>
    decreases s,
{
    if s.len() == 0 {
        first
    } else {
        match (term_chain_value(first, s.drop_last()), term_value(s.last().1)) {
            (Some(a), Some(b)) => binary_value(s.last().0, a, b),
            _ => None,
        }
    }
}

pub open spec fn expression_value(e: ExpressionModel) -> Option<int>
    decreases e,
{
    term_chain_value(term_value(e.first), e.rest)
}


// ---------------------------------------------------------------------------
// The text the code generator emits is the text of these instructions.

pub proof fn lemma_render_concat(a: Seq<Instr>, b: Seq<Instr>)
    ensures
        render(a + b) == render(a) + render(b),
    decreases b.len(),
{
    if b.len() == 0 {
        assert(a + b =~= a);
        assert(render(a) + render(b) =~= render(a));
    } else {
        assert((a + b).drop_last() =~= a + b.drop_last());
        lemma_render_concat(a, b.drop_last());
        assert(render(a) + render(b.drop_last()) + instr_text(b.last()) =~= render(a) + (render(
            b.drop_last(),
        ) + instr_text(b.last())));
    }
}

proof fn lemma_render_one(i: Instr)
    ensures
        render(seq![i]) == instr_text(i),
{
    assert(seq![i].drop_last() =~= Seq::<Instr>::empty());
    assert(seq![i].last() == i);
    assert(render(Seq::<Instr>::empty()) == Seq::<char>::empty());
    assert(Seq::<char>::empty() + instr_text(i) =~= instr_text(i));
}

proof fn lemma_render_two(i: Instr, j: Instr)
    ensures
        render(seq![i, j]) == instr_text(i) + instr_text(j),
{
    assert(seq![i, j] =~= seq![i] + seq![j]);
    lemma_render_concat(seq![i], seq![j]);
    lemma_render_one(i);
    lemma_render_one(j);
}

pub proof fn lemma_unary_text(op: UniOperator)
    ensures
        unary_code(op) == render(unary_instrs(op)),
{
    match op {
        UniOperator::LogicalNegation => {
            assert(seq![Instr::CmpZero, Instr::ZeroEax, Instr::SetEqual] =~= seq![
                Instr::CmpZero,
                Instr::ZeroEax,
            ] + seq![Instr::SetEqual]);
            lemma_render_concat(seq![Instr::CmpZero, Instr::ZeroEax], seq![Instr::SetEqual]);
            lemma_render_two(Instr::CmpZero, Instr::ZeroEax);
            lemma_render_one(Instr::SetEqual);
            reveal_strlit("cmpl $0, %eax\nmovl $0, %eax\nsete %al\n");
            reveal_strlit("cmpl $0, %eax\n");
            reveal_strlit("movl $0, %eax\n");
            reveal_strlit("sete %al\n");
            assert("cmpl $0, %eax\nmovl $0, %eax\nsete %al\n"@ =~= "cmpl $0, %eax\n"@
                + "movl $0, %eax\n"@ + "sete %al\n"@);
        },
        _ => {
            lemma_render_one(unary_instrs(op)[0]);
            assert(unary_instrs(op) =~= seq![unary_instrs(op)[0]]);
        },
    }
}

proof fn lemma_combine_text(op: BiOperator, right: Seq<Instr>)
    ensures
        combine_code(op, render(right)) == render(combine_instrs(op, right)),
{
    let b = binary_instrs(op);
    lemma_render_concat(seq![Instr::Push] + right + seq![Instr::MoveToEcx, Instr::Pop], b);
    lemma_render_concat(seq![Instr::Push] + right, seq![Instr::MoveToEcx, Instr::Pop]);
    lemma_render_concat(seq![Instr::Push], right);
    lemma_render_one(Instr::Push);
    lemma_render_two(Instr::MoveToEcx, Instr::Pop);
    reveal_strlit("movl %eax, %ecx\npop %eax\n");
    reveal_strlit("movl %eax, %ecx\n");
    reveal_strlit("pop %eax\n");
    assert("movl %eax, %ecx\npop %eax\n"@ =~= "movl %eax, %ecx\n"@ + "pop %eax\n"@);
    match op {
        BiOperator::Division => {
            lemma_render_two(Instr::SignExtend, Instr::Div);
            reveal_strlit("cdq\nidivl %ecx\n");
            reveal_strlit("cdq\n");
            reveal_strlit("idivl %ecx\n");
            assert("cdq\nidivl %ecx\n"@ =~= "cdq\n"@ + "idivl %ecx\n"@);
        },
        _ => {
            lemma_render_one(b[0]);
            assert(b =~= seq![b[0]]);
        },
    }
    assert(binary_code(op) == render(b));
}

/// A leading zero adds nothing to a decimal value.
proof fn lemma_decimal_leading_zero(s: Seq<char>)
    ensures
        decimal_value(seq!['0'] + s) == decimal_value(s),
    decreases s.len(),
{
    let z = seq!['0'] + s;
    if s.len() == 0 {
        assert(z.drop_last() =~= Seq::<char>::empty());
        assert(z.last() == '0');
        assert(decimal_value(Seq::<char>::empty()) == 0);
    } else {
        assert(z.drop_last() =~= seq!['0'] + s.drop_last());
        assert(z.last() == s.last());
        lemma_decimal_leading_zero(s.drop_last());
    }
}

/// Dropping leading zeros keeps the value and leaves no leading zero.
proof fn lemma_without_leading_zeros(c: Seq<char>)
    ensures
        decimal_value(without_leading_zeros(c)) == decimal_value(c),
        !has_leading_zero(without_leading_zeros(c)),
    decreases c.len(),
{
    if c.len() > 1 && c[0] == '0' {
        let rest = c.subrange(1, c.len() as int);
        assert(c =~= seq!['0'] + rest);
        lemma_decimal_leading_zero(rest);
        lemma_without_leading_zeros(rest);
    }
}

pub proof fn lemma_factor_text(f: FactorModel)
    ensures
        factor_code(f) == render(factor_instrs(f)),
    decreases f,
{
    match f {
        FactorModel::Constant(c) => {
            lemma_render_one(Instr::Load(without_leading_zeros(c)));
        },
        FactorModel::UnOp(op, g) => {
            lemma_factor_text(*g);
            lemma_unary_text(op);
            lemma_render_concat(factor_instrs(*g), unary_instrs(op));
        },
        FactorModel::Expr(e) => {
            lemma_expression_text(*e);
        },
    }
}

pub proof fn lemma_factor_chain_text(s: Seq<(BiOperator, FactorModel)>)
    ensures
        factor_chain_code(s) == render(factor_chain_instrs(s)),
    decreases s,
{
    if s.len() > 0 {
        lemma_factor_chain_text(s.drop_last());
        lemma_factor_text(s.last().1);
        lemma_combine_text(s.last().0, factor_instrs(s.last().1));
        lemma_render_concat(
            factor_chain_instrs(s.drop_last()),
            combine_instrs(s.last().0, factor_instrs(s.last().1)),
        );
    } else {
        assert(render(Seq::<Instr>::empty()) =~= Seq::<char>::empty());
    }
}

pub proof fn lemma_term_text(t: TermModel)
    ensures
        term_code(t) == render(term_instrs(t)),
    decreases t,
{
    lemma_factor_text(t.first);
    lemma_factor_chain_text(t.rest);
    lemma_render_concat(factor_instrs(t.first), factor_chain_instrs(t.rest));
}

pub proof fn lemma_term_chain_text(s: Seq<(BiOperator, TermModel)>)
    ensures
        term_chain_code(s) == render(term_chain_instrs(s)),
    decreases s,
{
    if s.len() > 0 {
        lemma_term_chain_text(s.drop_last());
        lemma_term_text(s.last().1);
        lemma_combine_text(s.last().0, term_instrs(s.last().1));
        lemma_render_concat(
            term_chain_instrs(s.drop_last()),
            combine_instrs(s.last().0, term_instrs(s.last().1)),
        );
    } else {
        assert(render(Seq::<Instr>::empty()) =~= Seq::<char>::empty());
    }
}

pub proof fn lemma_expression_text(e: ExpressionModel)
    ensures
        expression_code(e) == render(expression_instrs(e)),
    decreases e,
{
    lemma_term_text(e.first);
    lemma_term_chain_text(e.rest);
    lemma_render_concat(term_instrs(e.first), term_chain_instrs(e.rest));
}


// ---------------------------------------------------------------------------
// Running the instructions of a node leaves its value in `%eax` and the stack
// as it found it.

pub proof fn lemma_run_concat(a: Seq<Instr>, b: Seq<Instr>, m: Machine)
    ensures
        run(a + b, m) == match run(a, m) {
            Some(m2) => run(b, m2),
            None => None,
        },
    decreases b.len(),
{
    if b.len() == 0 {
        assert(a + b =~= a);
    } else {
        assert((a + b).drop_last() =~= a + b.drop_last());
        assert((a + b).last() == b.last());
        lemma_run_concat(a, b.drop_last(), m);
    }
}

proof fn lemma_run_one(i: Instr, m: Machine)
    ensures
        run(seq![i], m) == step(m, i),
{
    assert(seq![i].drop_last() =~= Seq::<Instr>::empty());
    assert(seq![i].last() == i);
    assert(run(Seq::<Instr>::empty(), m) == Some(m));
}

proof fn lemma_run_two(i: Instr, j: Instr, m: Machine)
    ensures
        run(seq![i, j], m) == match step(m, i) {
            Some(m2) => step(m2, j),
            None => None,
        },
{
    assert(seq![i, j] =~= seq![i] + seq![j]);
    lemma_run_concat(seq![i], seq![j], m);
    lemma_run_one(i, m);
    if step(m, i) is Some {
        lemma_run_one(j, step(m, i)->Some_0);
    }
}

proof fn lemma_wrap_is_i32(x: int)
    ensures
        is_i32(wrap(x)),
{
}

proof fn lemma_sign_extend(a: int)
    requires
        is_i32(a),
    ensures
        (if a < 0 { -1int } else { 0int }) * 4294967296 + a % 4294967296 == a,
{
    if a < 0 {
        assert(a % 4294967296 == a + 4294967296);
    }
}

/// A unary operator's instructions replace the value in `%eax` by the
/// operator's value of it.
pub proof fn lemma_run_unary(op: UniOperator, m: Machine)
    requires
        is_i32(m.eax),
    ensures
        run(unary_instrs(op), m) is Some,
        run(unary_instrs(op), m)->Some_0.eax == unary_value(op, m.eax),
        run(unary_instrs(op), m)->Some_0.stack == m.stack,
        is_i32(unary_value(op, m.eax)),
{
    match op {
        UniOperator::LogicalNegation => {
            assert(unary_instrs(op) =~= seq![Instr::CmpZero, Instr::ZeroEax] + seq![
                Instr::SetEqual,
            ]);
            lemma_run_concat(seq![Instr::CmpZero, Instr::ZeroEax], seq![Instr::SetEqual], m);
            lemma_run_two(Instr::CmpZero, Instr::ZeroEax, m);
            let m2 = run(seq![Instr::CmpZero, Instr::ZeroEax], m)->Some_0;
            lemma_run_one(Instr::SetEqual, m2);
            assert(m2.eax == 0);
            assert(m2.eax % 256 == 0);
        },
        _ => {
            assert(unary_instrs(op) =~= seq![unary_instrs(op)[0]]);
            lemma_run_one(unary_instrs(op)[0], m);
            lemma_wrap_is_i32(-m.eax);
        },
    }
}

/// A binary operator's instructions, with the left operand in `%eax` and the
/// right one in `%ecx`, leave the operator's value in `%eax`.
proof fn lemma_run_binary(op: BiOperator, m: Machine)
    requires
        is_i32(m.eax),
        is_i32(m.ecx),
        binary_value(op, m.eax, m.ecx) is Some,
    ensures
        run(binary_instrs(op), m) is Some,
        run(binary_instrs(op), m)->Some_0.eax == binary_value(op, m.eax, m.ecx)->Some_0,
        run(binary_instrs(op), m)->Some_0.stack == m.stack,
        is_i32(binary_value(op, m.eax, m.ecx)->Some_0),
{
    match op {
        BiOperator::Division => {
            lemma_run_two(Instr::SignExtend, Instr::Div, m);
            lemma_sign_extend(m.eax);
        },
        _ => {
            assert(binary_instrs(op) =~= seq![binary_instrs(op)[0]]);
            lemma_run_one(binary_instrs(op)[0], m);
            lemma_wrap_is_i32(m.eax + m.ecx);
            lemma_wrap_is_i32(m.eax - m.ecx);
            lemma_wrap_is_i32(m.eax * m.ecx);
        },
    }
}

/// The value in `%eax` is kept on the stack while `right` computes `b`, then
/// combined with it.
proof fn lemma_run_combine(op: BiOperator, right: Seq<Instr>, m: Machine, b: int)
    requires
        is_i32(m.eax),
        is_i32(b),
        binary_value(op, m.eax, b) is Some,
        run(right, Machine { stack: m.stack.push(m.eax), ..m }) is Some,
        run(right, Machine { stack: m.stack.push(m.eax), ..m })->Some_0.eax == b,
        run(right, Machine { stack: m.stack.push(m.eax), ..m })->Some_0.stack == m.stack.push(
            m.eax,
        ),
    ensures
        run(combine_instrs(op, right), m) is Some,
        run(combine_instrs(op, right), m)->Some_0.eax == binary_value(op, m.eax, b)->Some_0,
        run(combine_instrs(op, right), m)->Some_0.stack == m.stack,
        is_i32(binary_value(op, m.eax, b)->Some_0),
{
    let pushed = Machine { stack: m.stack.push(m.eax), ..m };
    let save = seq![Instr::Push];
    let restore = seq![Instr::MoveToEcx, Instr::Pop];
    lemma_run_concat(save + right + restore, binary_instrs(op), m);
    lemma_run_concat(save + right, restore, m);
    lemma_run_concat(save, right, m);
    lemma_run_one(Instr::Push, m);
    assert(run(save, m) == Some(pushed));
    let m3 = run(right, pushed)->Some_0;
    lemma_run_two(Instr::MoveToEcx, Instr::Pop, m3);
    assert(m3.stack.drop_last() =~= m.stack);
    let m5 = run(restore, m3)->Some_0;
    assert(m5.eax == m.eax && m5.ecx == b && m5.stack == m.stack);
    lemma_run_binary(op, m5);
}

pub proof fn lemma_factor_runs(f: FactorModel, m: Machine)
    requires
        factor_value(f) is Some,
    ensures
        run(factor_instrs(f), m) is Some,
        run(factor_instrs(f), m)->Some_0.eax == factor_value(f)->Some_0,
        run(factor_instrs(f), m)->Some_0.stack == m.stack,
        is_i32(factor_value(f)->Some_0),
    decreases f,
{
    match f {
        FactorModel::Constant(c) => {
            lemma_run_one(Instr::Load(without_leading_zeros(c)), m);
            lemma_without_leading_zeros(c);
            lemma_wrap_is_i32(decimal_value(c));
        },
        FactorModel::UnOp(op, g) => {
            lemma_factor_runs(*g, m);
            lemma_run_concat(factor_instrs(*g), unary_instrs(op), m);
            lemma_run_unary(op, run(factor_instrs(*g), m)->Some_0);
        },
        FactorModel::Expr(e) => {
            lemma_expression_runs(*e, m);
        },
    }
}

pub proof fn lemma_factor_chain_runs(first: Option<int>, s: Seq<(BiOperator, FactorModel)>, m: Machine)
    requires
        first == Some(m.eax),
        is_i32(m.eax),
        factor_chain_value(first, s) is Some,
    ensures
        run(factor_chain_instrs(s), m) is Some,
        run(factor_chain_instrs(s), m)->Some_0.eax == factor_chain_value(first, s)->Some_0,
        run(factor_chain_instrs(s), m)->Some_0.stack == m.stack,
        is_i32(factor_chain_value(first, s)->Some_0),
    decreases s,
{
    if s.len() == 0 {
    } else {
        let (op, x) = s.last();
        lemma_factor_chain_runs(first, s.drop_last(), m);
        let m1 = run(factor_chain_instrs(s.drop_last()), m)->Some_0;
        lemma_factor_runs(x, Machine { stack: m1.stack.push(m1.eax), ..m1 });
        lemma_run_combine(op, factor_instrs(x), m1, factor_value(x)->Some_0);
        lemma_run_concat(factor_chain_instrs(s.drop_last()), combine_instrs(op, factor_instrs(x)), m);
    }
}

pub proof fn lemma_term_runs(t: TermModel, m: Machine)
    requires
        term_value(t) is Some,
    ensures
        run(term_instrs(t), m) is Some,
        run(term_instrs(t), m)->Some_0.eax == term_value(t)->Some_0,
        run(term_instrs(t), m)->Some_0.stack == m.stack,
        is_i32(term_value(t)->Some_0),
    decreases t,
{
    lemma_factor_chain_some(factor_value(t.first), t.rest);
    lemma_factor_runs(t.first, m);
    let m1 = run(factor_instrs(t.first), m)->Some_0;
    lemma_factor_chain_runs(factor_value(t.first), t.rest, m1);
    lemma_run_concat(factor_instrs(t.first), factor_chain_instrs(t.rest), m);
}

pub proof fn lemma_term_chain_runs(first: Option<int>, s: Seq<(BiOperator, TermModel)>, m: Machine)
    requires
        first == Some(m.eax),
        is_i32(m.eax),
        term_chain_value(first, s) is Some,
    ensures
        run(term_chain_instrs(s), m) is Some,
        run(term_chain_instrs(s), m)->Some_0.eax == term_chain_value(first, s)->Some_0,
        run(term_chain_instrs(s), m)->Some_0.stack == m.stack,
        is_i32(term_chain_value(first, s)->Some_0),
    decreases s,
{
    if s.len() == 0 {
    } else {
        let (op, x) = s.last();
        lemma_term_chain_runs(first, s.drop_last(), m);
        let m1 = run(term_chain_instrs(s.drop_last()), m)->Some_0;
        lemma_term_runs(x, Machine { stack: m1.stack.push(m1.eax), ..m1 });
        lemma_run_combine(op, term_instrs(x), m1, term_value(x)->Some_0);
        lemma_run_concat(term_chain_instrs(s.drop_last()), combine_instrs(op, term_instrs(x)), m);
    }
}

pub proof fn lemma_expression_runs(e: ExpressionModel, m: Machine)
    requires
        expression_value(e) is Some,
    ensures
        run(expression_instrs(e), m) is Some,
        run(expression_instrs(e), m)->Some_0.eax == expression_value(e)->Some_0,
        run(expression_instrs(e), m)->Some_0.stack == m.stack,
        is_i32(expression_value(e)->Some_0),
    decreases e,
{
    lemma_term_chain_some(term_value(e.first), e.rest);
    lemma_term_runs(e.first, m);
    let m1 = run(term_instrs(e.first), m)->Some_0;
    lemma_term_chain_runs(term_value(e.first), e.rest, m1);
    lemma_run_concat(term_instrs(e.first), term_chain_instrs(e.rest), m);
}

/// A chain has a value only where its first operand has one.
proof fn lemma_factor_chain_some(first: Option<int>, s: Seq<(BiOperator, FactorModel)>)
    ensures
        factor_chain_value(first, s) is Some ==> first is Some,
    decreases s.len(),
{
    if s.len() > 0 {
        lemma_factor_chain_some(first, s.drop_last());
    }
}

proof fn lemma_term_chain_some(first: Option<int>, s: Seq<(BiOperator, TermModel)>)
    ensures
        term_chain_value(first, s) is Some ==> first is Some,
    decreases s.len(),
{
    if s.len() > 0 {
        lemma_term_chain_some(first, s.drop_last());
    }
}

} // verus!
