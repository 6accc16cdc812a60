use c_compiler::asm_generator::generate_asm;
use c_compiler::ast::{BiOperator, Constant, Expression, Factor, Program, Term, UniOperator};
use c_compiler::compiler::{compile, compile_tokens};
use c_compiler::error::CompileError;
use c_compiler::lexxer::{from_line, LexToken};

fn compile_source(src: &str) -> Result<String, CompileError> {
    compile(&vec![src.to_string()])
}

fn parse_source(src: &str) -> Result<Program, CompileError> {
    Program::new(&from_line(src).unwrap())
}

const HEADER: &str = ".globl main\nmain:\n";

#[test]
fn return_constant_end_to_end() {
    let toks = from_line("int main(){return 2;}").unwrap();
    assert_eq!(
        toks,
        vec![
            LexToken::Int,
            LexToken::Identifier(String::from("main")),
            LexToken::OpenParenth,
            LexToken::CloseParenth,
            LexToken::OpenBrace,
            LexToken::Return,
            LexToken::IntLiteral(String::from("2")),
            LexToken::Semicolon,
            LexToken::CloseBrace,
        ]
    );
    let program = Program::new(&toks).unwrap();
    assert_eq!(
        format!("{:?}", program),
        "Declaration(FunctionDecl { name: \"main\", body: \
         Return(Term(Factor(Constant(Integer(\"2\")), []), [])) })"
    );
    assert_eq!(generate_asm(&program), ".globl main\nmain:\nmovl $2, %eax\nret\n");
}

#[test]
fn return_constant_uses_function_name() {
    assert_eq!(
        compile_source("int foo_1(){return 2147483647;}"),
        Ok(String::from(".globl foo_1\nfoo_1:\nmovl $2147483647, %eax\nret\n"))
    );
    assert_eq!(
        compile_source("int main(){return 0;}"),
        Ok(format!("{}movl $0, %eax\nret\n", HEADER))
    );
}

#[test]
fn single_unary_templates() {
    assert_eq!(
        compile_source("int main(){return -3;}"),
        Ok(format!("{}movl $3, %eax\nneg %eax\nret\n", HEADER))
    );
    assert_eq!(
        compile_source("int main(){return ~3;}"),
        Ok(format!("{}movl $3, %eax\nnot %eax\nret\n", HEADER))
    );
    assert_eq!(
        compile_source("int main(){return !3;}"),
        Ok(format!("{}movl $3, %eax\ncmpl $0, %eax\nmovl $0, %eax\nsete %al\nret\n", HEADER))
    );
}

#[test]
fn nested_unary_innermost_first() {
    assert_eq!(
        compile_source("int main(){return !~-3;}"),
        Ok(format!(
            "{}movl $3, %eax\nneg %eax\nnot %eax\ncmpl $0, %eax\nmovl $0, %eax\nsete %al\nret\n",
            HEADER
        ))
    );
}

#[test]
fn parenthesized_expression_parses_to_its_content() {
    let inner = from_line("2+3").unwrap();
    let (unwrapped, end) = Expression::new(&inner, 0).unwrap();
    assert_eq!(end, 3);
    let wrapped = from_line("(2+3)").unwrap();
    let (factor, end) = Factor::new(&wrapped, 0).unwrap();
    assert_eq!(end, 5);
    match factor {
        Factor::Expr(e) => assert_eq!(format!("{:?}", e), format!("{:?}", unwrapped)),
        _ => panic!("expected a parenthesized expression"),
    }
    assert_eq!(
        compile_source("int main(){return (2);}"),
        compile_source("int main(){return 2;}")
    );
}

#[test]
fn unbalanced_parentheses_are_syntax_errors() {
    assert_eq!(compile_source("int main(){return (2;}"), Err(CompileError::Syntax(8)));
    assert_eq!(compile_source("int main(){return 2);}"), Err(CompileError::Syntax(7)));
}

#[test]
fn subtraction_chain_is_left_associative() {
    let program = parse_source("int main(){return 8-3-2;}").unwrap();
    assert_eq!(
        format!("{:?}", program),
        "Declaration(FunctionDecl { name: \"main\", body: Return(Term(Factor(Constant(Integer(\"8\")), []), \
         [(Subtraction, Factor(Constant(Integer(\"3\")), [])), \
         (Subtraction, Factor(Constant(Integer(\"2\")), []))])) })"
    );
    let step = |n: &str| format!("push %eax\nmovl ${}, %eax\nmovl %eax, %ecx\npop %eax\nsubl %ecx, %eax\n", n);
    assert_eq!(
        generate_asm(&program),
        format!("{}movl $8, %eax\n{}{}ret\n", HEADER, step("3"), step("2"))
    );
}

#[test]
fn multiplication_binds_tighter_than_addition() {
    let program = parse_source("int main(){return 2+3*4;}").unwrap();
    assert_eq!(
        format!("{:?}", program),
        "Declaration(FunctionDecl { name: \"main\", body: Return(Term(Factor(Constant(Integer(\"2\")), []), \
         [(Addition, Factor(Constant(Integer(\"3\")), [(Multiplication, Constant(Integer(\"4\")))]))])) })"
    );
    assert_eq!(
        generate_asm(&program),
        format!(
            "{}movl $2, %eax\npush %eax\nmovl $3, %eax\npush %eax\nmovl $4, %eax\n\
             movl %eax, %ecx\npop %eax\nimull %ecx, %eax\nmovl %eax, %ecx\npop %eax\n\
             addl %ecx, %eax\nret\n",
            HEADER
        )
    );
}

#[test]
fn division_keeps_operand_order() {
    assert_eq!(
        compile_source("int main(){return 6/2;}"),
        Ok(format!(
            "{}movl $6, %eax\npush %eax\nmovl $2, %eax\nmovl %eax, %ecx\npop %eax\ncdq\nidivl %ecx\nret\n",
            HEADER
        ))
    );
}

#[test]
fn lexing_and_parsing_twice_agree() {
    let first = parse_source("int main(){return -(1+2)*3/~4;}").unwrap();
    let second = parse_source("int main(){return -(1+2)*3/~4;}").unwrap();
    assert_eq!(format!("{:?}", first), format!("{:?}", second));
}

#[test]
fn missing_expression_is_syntax_error() {
    assert_eq!(compile_source("int main() {return ;}"), Err(CompileError::Syntax(6)));
}

#[test]
fn truncated_input_is_incomplete() {
    assert_eq!(compile_source("int main(){return 2"), Err(CompileError::IncompleteInput));
    assert_eq!(compile_source("int main("), Err(CompileError::IncompleteInput));
    assert_eq!(compile_source(""), Err(CompileError::IncompleteInput));
}

#[test]
fn header_errors_name_the_token() {
    assert_eq!(compile_source("int (){return 2;}"), Err(CompileError::Syntax(1)));
    assert_eq!(compile_source("void main(){return 2;}"), Err(CompileError::Syntax(0)));
    assert_eq!(compile_source("int main(]{return 2;}"), Err(CompileError::Lexical { line: 0, word: 3 }));
    assert_eq!(compile_source("int main){return 2;}"), Err(CompileError::Syntax(2)));
}

#[test]
fn literal_out_of_range_is_rejected() {
    assert_eq!(compile_source("int main(){return 2147483648;}"), Err(CompileError::Syntax(6)));
    assert!(Constant::new(&LexToken::IntLiteral(String::from("2147483648"))).is_none());
    assert!(Constant::new(&LexToken::IntLiteral(String::from("2147483647"))).is_some());
    assert!(Constant::new(&LexToken::IntLiteral(String::from(""))).is_none());
    assert!(Constant::new(&LexToken::Semicolon).is_none());
}

#[test]
fn lexical_error_stops_pipeline() {
    assert_eq!(
        compile_source("int main(){return 2 $ 3;}"),
        Err(CompileError::Lexical { line: 0, word: 7 })
    );
}

#[test]
fn operator_constructors() {
    assert_eq!(UniOperator::new(&LexToken::Negation), Some(UniOperator::Negation));
    assert_eq!(UniOperator::new(&LexToken::LogicalNegation), Some(UniOperator::LogicalNegation));
    assert_eq!(UniOperator::new(&LexToken::Addition), None);
    assert_eq!(BiOperator::new(&LexToken::Negation), Some(BiOperator::Subtraction));
    assert_eq!(BiOperator::new(&LexToken::Division), Some(BiOperator::Division));
    assert_eq!(BiOperator::new(&LexToken::BitwiseComplement), None);
}

#[test]
fn term_stops_at_additive_operator() {
    let toks = from_line("2*3+4").unwrap();
    let (term, end) = Term::new(&toks, 0).unwrap();
    assert_eq!(end, 3);
    assert_eq!(
        format!("{:?}", term),
        "Factor(Constant(Integer(\"2\")), [(Multiplication, Constant(Integer(\"3\")))])"
    );
}

#[test]
fn compile_tokens_matches_pipeline() {
    let toks = from_line("int main(){return 1+1;}").unwrap();
    assert_eq!(compile_tokens(&toks), compile_source("int main(){return 1+1;}"));
}

#[test]
fn literal_with_leading_zeros_is_emitted_in_decimal() {
    assert_eq!(
        compile_source("int main(){return 010;}"),
        Ok(format!("{}movl $10, %eax\nret\n", HEADER))
    );
    assert_eq!(
        compile_source("int main(){return 09;}"),
        Ok(format!("{}movl $9, %eax\nret\n", HEADER))
    );
    assert_eq!(
        compile_source("int main(){return 000;}"),
        Ok(format!("{}movl $0, %eax\nret\n", HEADER))
    );
}
