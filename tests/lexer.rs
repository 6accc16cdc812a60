use c_compiler::error::CompileError;
use c_compiler::lexxer::{format_spacing, from_line, lex, split_words, tokens_of_spaced, LexToken};

fn generate_stage_2_vec(un_oper: LexToken, int_literal: &str) -> Vec<LexToken> {
    vec![
        LexToken::Int,
        LexToken::Identifier(String::from("main")),
        LexToken::OpenParenth,
        LexToken::CloseParenth,
        LexToken::OpenBrace,
        LexToken::Return,
        un_oper,
        LexToken::IntLiteral(int_literal.to_string()),
        LexToken::Semicolon,
        LexToken::CloseBrace,
    ]
}

fn generate_stage_3_vec(oper: LexToken, int_literal: &str) -> Vec<LexToken> {
    vec![
        LexToken::Int,
        LexToken::Identifier(String::from("main")),
        LexToken::OpenParenth,
        LexToken::CloseParenth,
        LexToken::OpenBrace,
        LexToken::Return,
        LexToken::IntLiteral(int_literal.to_string()),
        oper,
        LexToken::IntLiteral(int_literal.to_string()),
        LexToken::Semicolon,
        LexToken::CloseBrace,
    ]
}

fn spaced(s: &str) -> String {
    format_spacing(s)
}

#[test]
fn test_simple_format_spacing() {
    assert_eq!(spaced("hello;"), "hello ; ");
    assert_eq!(spaced("hello}"), "hello } ");
    assert_eq!(spaced("hello{"), "hello { ");
    assert_eq!(spaced("hello)"), "hello ) ");
    assert_eq!(spaced("hello("), "hello ( ");
    assert_eq!(spaced("!hello"), " ! hello");
    assert_eq!(spaced("~hello"), " ~ hello");
    assert_eq!(spaced("-hello"), " - hello");
}

#[test]
fn test_format_spacing() {
    assert_eq!(spaced("-!~{hello"), " -  !  ~  { hello");
    assert_eq!(spaced("void main(){return 3;}"), "void main (  )  { return 3 ;  } ");
    assert_eq!(
        spaced("int main(int argc) {return ~1; }"),
        "int main ( int argc )   { return  ~ 1 ;   } "
    );
}

#[test]
fn format_spacing_spaces_binary_operators() {
    assert_eq!(spaced("a+1*2/3"), "a + 1 * 2 / 3");
}

#[test]
fn test_stage1_from_line() {
    let stage1_vec = vec![
        LexToken::Int,
        LexToken::Identifier(String::from("main")),
        LexToken::OpenParenth,
        LexToken::CloseParenth,
        LexToken::OpenBrace,
        LexToken::Return,
        LexToken::IntLiteral(String::from("3")),
        LexToken::Semicolon,
        LexToken::CloseBrace,
    ];
    assert_eq!(from_line("int main(){return 3;}"), Ok(stage1_vec))
}

#[test]
fn test_stage2_from_line() {
    assert_eq!(
        from_line("int main(){return !3;}"),
        Ok(generate_stage_2_vec(LexToken::LogicalNegation, "3"))
    );
    assert_eq!(
        from_line("int main(){return -3;}"),
        Ok(generate_stage_2_vec(LexToken::Negation, "3"))
    );
    assert_eq!(
        from_line("int main(){return ~3;}"),
        Ok(generate_stage_2_vec(LexToken::BitwiseComplement, "3"))
    );
}

#[test]
fn test_stage3_from_line() {
    assert_eq!(
        from_line("int main(){return 2+2;}"),
        Ok(generate_stage_3_vec(LexToken::Addition, "2"))
    );
    assert_eq!(
        from_line("int main(){return 2 + 2;}"),
        Ok(generate_stage_3_vec(LexToken::Addition, "2"))
    );
    assert_eq!(
        from_line("int main(){return 2*2;}"),
        Ok(generate_stage_3_vec(LexToken::Multiplication, "2"))
    );
    assert_eq!(
        from_line("int main(){return 2 * 2;}"),
        Ok(generate_stage_3_vec(LexToken::Multiplication, "2"))
    );
    assert_eq!(
        from_line("int main(){return 2/2;}"),
        Ok(generate_stage_3_vec(LexToken::Division, "2"))
    );
    assert_eq!(
        from_line("int main(){return 2 / 2;}"),
        Ok(generate_stage_3_vec(LexToken::Division, "2"))
    );
}

#[test]
fn test_from_str() {
    assert_eq!(LexToken::OpenBrace, LexToken::from_str("{"));
    assert_eq!(LexToken::CloseBrace, LexToken::from_str("}"));
    assert_eq!(LexToken::OpenParenth, LexToken::from_str("("));
    assert_eq!(LexToken::CloseParenth, LexToken::from_str(")"));
    assert_eq!(LexToken::Semicolon, LexToken::from_str(";"));
    assert_eq!(LexToken::Int, LexToken::from_str("int"));
    assert_eq!(LexToken::Return, LexToken::from_str("return"));
    assert_eq!(LexToken::Negation, LexToken::from_str("-"));
    assert_eq!(LexToken::BitwiseComplement, LexToken::from_str("~"));
    assert_eq!(LexToken::LogicalNegation, LexToken::from_str("!"));
    assert_eq!(LexToken::Identifier(String::from("main")), LexToken::from_str("main"));
    assert_eq!(LexToken::IntLiteral(String::from("99")), LexToken::from_str("99"));
    assert_eq!(LexToken::Undefined, LexToken::from_str("..."));
}

#[test]
fn test_to_str() {
    assert_eq!(LexToken::OpenBrace.to_str(), Some("{"));
    assert_eq!(LexToken::CloseBrace.to_str(), Some("}"));
    assert_eq!(LexToken::OpenParenth.to_str(), Some("("));
    assert_eq!(LexToken::CloseParenth.to_str(), Some(")"));
    assert_eq!(LexToken::Semicolon.to_str(), Some(";"));
    assert_eq!(LexToken::Int.to_str(), Some("int"));
    assert_eq!(LexToken::Return.to_str(), Some("return"));
    assert_eq!(LexToken::Negation.to_str(), Some("-"));
    assert_eq!(LexToken::BitwiseComplement.to_str(), Some("~"));
    assert_eq!(LexToken::LogicalNegation.to_str(), Some("!"));
    assert_eq!(LexToken::Identifier(String::from("main")).to_str(), Some("main"));
    assert_eq!(LexToken::IntLiteral(String::from("99")).to_str(), Some("99"));

    assert_eq!(LexToken::Undefined.to_str(), None);
}

#[test]
fn from_str_identifier_with_digits_and_underscore() {
    assert_eq!(LexToken::from_str("a_1"), LexToken::Identifier(String::from("a_1")));
}

#[test]
fn from_str_mixed_word_is_undefined() {
    assert_eq!(LexToken::from_str("3abc"), LexToken::Undefined);
    assert_eq!(LexToken::from_str("_x"), LexToken::Undefined);
}

#[test]
fn classify_follows_given_flags() {
    assert_eq!(LexToken::classify("int", true, true), LexToken::Int);
    assert_eq!(LexToken::classify("abc", true, false), LexToken::Identifier(String::from("abc")));
    assert_eq!(LexToken::classify("12", false, true), LexToken::IntLiteral(String::from("12")));
    assert_eq!(LexToken::classify("12", false, false), LexToken::Undefined);
}

#[test]
fn split_words_on_whitespace() {
    assert_eq!(split_words("  ab \t c\n"), vec![String::from("ab"), String::from("c")]);
    assert_eq!(split_words(""), Vec::<String>::new());
    assert_eq!(split_words("   "), Vec::<String>::new());
    assert_eq!(split_words("x"), vec![String::from("x")]);
}

#[test]
fn from_line_reports_first_undefined_word() {
    assert_eq!(
        from_line("int main(){return 3 . 4;}"),
        Err(CompileError::Lexical { line: 0, word: 7 })
    );
}

#[test]
fn lex_concatenates_lines() {
    let lines = vec![String::from("int main()"), String::from("{"), String::from("return 2;}")];
    let toks = lex(&lines).unwrap();
    assert_eq!(
        toks,
        vec![
            LexToken::Int,
            LexToken::Identifier(String::from("main")),
            LexToken::OpenParenth,
            LexToken::CloseParenth,
            LexToken::OpenBrace,
            LexToken::Return,
            LexToken::IntLiteral(String::from("2")),
            LexToken::Semicolon,
            LexToken::CloseBrace,
        ]
    );
    assert_eq!(lex(&Vec::new()), Ok(Vec::new()));
}

#[test]
fn lex_names_line_of_undefined_word() {
    let lines = vec![String::from("int main() {"), String::from("return #;"), String::from("}")];
    assert_eq!(lex(&lines), Err(CompileError::Lexical { line: 1, word: 1 }));
}

#[test]
fn split_words_on_unicode_whitespace() {
    assert_eq!(
        split_words("a\u{a0}b\u{2003}c\u{3000}d\u{85}e"),
        vec![
            String::from("a"),
            String::from("b"),
            String::from("c"),
            String::from("d"),
            String::from("e")
        ]
    );
}

#[test]
fn from_line_splits_at_no_break_space() {
    assert_eq!(
        from_line("return\u{a0}2;"),
        Ok(vec![LexToken::Return, LexToken::IntLiteral(String::from("2")), LexToken::Semicolon])
    );
}

#[test]
fn tokens_of_spaced_classifies_words() {
    assert_eq!(
        tokens_of_spaced("x + 1"),
        Ok(vec![
            LexToken::Identifier(String::from("x")),
            LexToken::Addition,
            LexToken::IntLiteral(String::from("1"))
        ])
    );
    assert_eq!(tokens_of_spaced("x ? 1"), Err(CompileError::Lexical { line: 0, word: 1 }));
}
