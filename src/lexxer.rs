use vstd::prelude::*;
use vstd::string::StringExecFns;

use crate::error::CompileError;

verus! {

/// A classified word of the source text.
#[derive(Debug, PartialEq, Eq, Clone)]
pub enum LexToken {
    OpenBrace,
    CloseBrace,
    OpenParenth,
    CloseParenth,
    Semicolon,
    Int,
    Return,
    Identifier(String),
    IntLiteral(String),
    Negation,
    BitwiseComplement,
    LogicalNegation,
    Addition,
    Multiplication,
    Division,
    Undefined,
}

/// The characters that stand as words of their own even where nothing
/// separates them from their neighbours.
pub const SPACING_PATTERN: &'static str = "[/+*{}();!~-]";

/// Each character that `SPACING_PATTERN` matches, with a space on each side.
pub const SPACING_REPLACEMENT: &'static str = " $0 ";

pub const IDENTIFIER_PATTERN: &'static str = "^[a-zA-Z][a-zA-Z0-9_]*$";

pub const LITERAL_PATTERN: &'static str = "^[0-9]+$";

pub open spec fn is_ascii_letter(c: char) -> bool {
    ('a' <= c && c <= 'z') || ('A' <= c && c <= 'Z')
}

pub open spec fn is_word_char(c: char) -> bool {
    is_ascii_letter(c) || ('0' <= c && c <= '9') || c == '_'
}

/// What `IDENTIFIER_PATTERN` matches: an ASCII letter, then ASCII letters,
/// digits and underscores.
pub open spec fn is_identifier_word(w: Seq<char>) -> bool {
    &&& w.len() > 0
    &&& is_ascii_letter(w[0])
    &&& forall|i: int| 1 <= i < w.len() ==> is_word_char(#[trigger] w[i])
}

/// What `LITERAL_PATTERN` matches: one or more ASCII digits.
pub open spec fn is_literal_word(w: Seq<char>) -> bool {
    &&& w.len() > 0
    &&& forall|i: int| 0 <= i < w.len() ==> '0' <= #[trigger] w[i] && w[i] <= '9'
}

/// The characters of `SPACING_PATTERN`'s class.
pub open spec fn stands_apart(c: char) -> bool {
    c == '/' || c == '+' || c == '*' || c == '{' || c == '}' || c == '(' || c == ')' || c == ';'
        || c == '!' || c == '~' || c == '-'
}

/// `s` with a space on each side of every character that stands apart.
pub open spec fn spaced_text(s: Seq<char>) -> Seq<char>
    decreases s.len(),
{
    if s.len() == 0 {
        Seq::empty()
    } else {
        spaced_text(s.drop_last()) + if stands_apart(s.last()) {
            seq![' ', s.last(), ' ']
        } else {
            seq![s.last()]
        }
    }
}

// ---------------------------------------------------------------------------
// What the regex engine computes, by name, and for the patterns above.

/// Whether the regex engine accepts `pattern`.
pub uninterp spec fn regex_compiles(pattern: Seq<char>) -> bool;

/// Whether `pattern` matches somewhere in `haystack`.
pub uninterp spec fn regex_is_match(pattern: Seq<char>, haystack: Seq<char>) -> bool;

/// `haystack` with every match of `pattern` replaced as `replacement` says.
pub uninterp spec fn regex_replace_all(
    pattern: Seq<char>,
    haystack: Seq<char>,
    replacement: Seq<char>,
) -> Seq<char>;

/// Relies on `regex::Regex::new`, which compiles `pattern` or fails, and on
/// `Regex::is_match`, which tells whether the compiled pattern matches
/// anywhere in `haystack`. In the regex syntax `^` and `$` (without the `m`
/// flag) match only at the start and the end of the haystack, and a class
/// such as `[a-zA-Z0-9_]` holds exactly the listed ASCII characters, which
/// gives what the two word patterns match.
#[verifier::external_body]
fn pattern_matches(pattern: &str, haystack: &str) -> (r: bool)
    ensures
        r == (regex_compiles(pattern@) && regex_is_match(pattern@, haystack@)),
        pattern@ == IDENTIFIER_PATTERN@ ==> r == is_identifier_word(haystack@),
        pattern@ == LITERAL_PATTERN@ ==> r == is_literal_word(haystack@),
{
    match regex::Regex::new(pattern) {
        Ok(re) => re.is_match(haystack),
        Err(_) => false,
    }
}

/// Relies on `regex::Regex::new`, which compiles `pattern` or fails, and on
/// `Regex::replace_all`, which replaces every non-overlapping match in
/// `haystack`, `$0` in the replacement standing for the whole match. The
/// spacing pattern is a class of single characters, so each of them is
/// replaced by itself between two spaces.
#[verifier::external_body]
fn replace_all_matches(pattern: &str, haystack: &str, replacement: &str) -> (r: Option<String>)
    ensures
        r is Some <==> regex_compiles(pattern@),
        r is Some ==> r->Some_0@ == regex_replace_all(pattern@, haystack@, replacement@),
        pattern@ == SPACING_PATTERN@ && replacement@ == SPACING_REPLACEMENT@ ==> r is Some
            && r->Some_0@ == spaced_text(haystack@),
{
    match regex::Regex::new(pattern) {
        Ok(re) => Some(re.replace_all(haystack, replacement).into_owned()),
        Err(_) => None,
    }
}

// ---------------------------------------------------------------------------
// Words and their tokens.

/// The token of a word that is a keyword or a punctuation mark.
pub open spec fn keyword_token(w: Seq<char>) -> Option<LexToken> {
    if w == "{"@ {
        Some(LexToken::OpenBrace)
    } else if w == "}"@ {
        Some(LexToken::CloseBrace)
    } else if w == "("@ {
        Some(LexToken::OpenParenth)
    } else if w == ")"@ {
        Some(LexToken::CloseParenth)
    } else if w == ";"@ {
        Some(LexToken::Semicolon)
    } else if w == "int"@ {
        Some(LexToken::Int)
    } else if w == "return"@ {
        Some(LexToken::Return)
    } else if w == "-"@ {
        Some(LexToken::Negation)
    } else if w == "~"@ {
        Some(LexToken::BitwiseComplement)
    } else if w == "!"@ {
        Some(LexToken::LogicalNegation)
    } else if w == "+"@ {
        Some(LexToken::Addition)
    } else if w == "*"@ {
        Some(LexToken::Multiplication)
    } else if w == "/"@ {
        Some(LexToken::Division)
    } else {
        None
    }
}

/// `t` is the token of word `w`, given whether `w` is an identifier and
/// whether it is an integer literal: a keyword or punctuation mark first,
/// then an identifier, then a literal, else undefined.
pub open spec fn word_token(w: Seq<char>, is_identifier: bool, is_literal: bool, t: LexToken) -> bool {
    match keyword_token(w) {
        Some(k) => t == k,
        None => if is_identifier {
            t is Identifier && t->Identifier_0@ == w
        } else if is_literal {
            t is IntLiteral && t->IntLiteral_0@ == w
        } else {
            t is Undefined
        },
    }
}

/// A word that matches no token pattern.
pub open spec fn is_undefined_word(w: Seq<char>) -> bool {
    keyword_token(w) is None && !is_identifier_word(w) && !is_literal_word(w)
}

/// The text that a token stands for; none for an undefined token.
pub open spec fn token_text(t: LexToken) -> Option<Seq<char>> {
    match t {
        LexToken::OpenBrace => Some("{"@),
        LexToken::CloseBrace => Some("}"@),
        LexToken::OpenParenth => Some("("@),
        LexToken::CloseParenth => Some(")"@),
        LexToken::Semicolon => Some(";"@),
        LexToken::Int => Some("int"@),
        LexToken::Return => Some("return"@),
        LexToken::Identifier(s) => Some(s@),
        LexToken::IntLiteral(s) => Some(s@),
        LexToken::Negation => Some("-"@),
        LexToken::BitwiseComplement => Some("~"@),
        LexToken::LogicalNegation => Some("!"@),
        LexToken::Addition => Some("+"@),
        LexToken::Multiplication => Some("*"@),
        LexToken::Division => Some("/"@),
        LexToken::Undefined => None,
    }
}

/// The characters with the Unicode `White_Space` property, the set that
/// `char::is_whitespace` tests for.
pub open spec fn is_space(c: char) -> bool {
    ('\t' <= c && c <= '\r') || c == ' ' || c == '\u{85}' || c == '\u{a0}' || c == '\u{1680}'
        || ('\u{2000}' <= c && c <= '\u{200a}') || c == '\u{2028}' || c == '\u{2029}'
        || c == '\u{202f}' || c == '\u{205f}' || c == '\u{3000}'
}

/// The maximal runs of characters other than whitespace, in order.
pub open spec fn words_of(s: Seq<char>) -> Seq<Seq<char>>
    decreases s.len(),
{
    if s.len() == 0 {
        Seq::empty()
    } else {
        let w = words_of(s.drop_last());
        if is_space(s.last()) {
            w
        } else if s.len() >= 2 && !is_space(s[s.len() - 2]) {
            w.drop_last().push(w.last().push(s.last()))
        } else {
            w.push(seq![s.last()])
        }
    }
}

/// The words of a line once every character of `SPACING_PATTERN` stands apart.
pub open spec fn line_words(line: Seq<char>) -> Seq<Seq<char>> {
    words_of(spaced_text(line))
}

/// `toks` holds a defined token for each word of `ws`, in order.
pub open spec fn tokens_of_words(ws: Seq<Seq<char>>, toks: Seq<LexToken>) -> bool {
    &&& toks.len() == ws.len()
    &&& forall|i: int|
        0 <= i < ws.len() ==> word_token(
            ws[i],
            is_identifier_word(ws[i]),
            is_literal_word(ws[i]),
            #[trigger] toks[i],
        ) && !(toks[i] is Undefined)
}

/// `i` is the first word of `ws` that matches no token pattern.
pub open spec fn first_undefined(ws: Seq<Seq<char>>, i: int) -> bool {
    &&& 0 <= i < ws.len()
    &&& is_undefined_word(ws[i])
    &&& forall|j: int| 0 <= j < i ==> !is_undefined_word(#[trigger] ws[j])
}

/// The words of all lines, in the order of the lines.
pub open spec fn source_words(lines: Seq<Seq<char>>) -> Seq<Seq<char>>
    decreases lines.len(),
{
    if lines.len() == 0 {
        Seq::empty()
    } else {
        source_words(lines.drop_last()) + line_words(lines.last())
    }
}

/// Every word of `ws` matches a token pattern.
pub open spec fn all_defined(ws: Seq<Seq<char>>) -> bool {
    forall|i: int| 0 <= i < ws.len() ==> !is_undefined_word(#[trigger] ws[i])
}

pub open spec fn lines_view(lines: Seq<String>) -> Seq<Seq<char>> {
    lines.map_values(|l: String| l@)
}

// ---------------------------------------------------------------------------

/// Whether two texts are equal.
fn text_is(a: &str, b: &str) -> (r: bool)
    ensures
        r == (a@ == b@),
{
    let n = a.unicode_len();
    if n != b.unicode_len() {
        return false;
    }
    let mut i: usize = 0;
    while i < n
        invariant
            i <= n,
            n == a@.len(),
            n == b@.len(),
            forall|j: int| 0 <= j < i ==> a@[j] == b@[j],
        decreases n - i,
    {
        if a.get_char(i) != b.get_char(i) {
            return false;
        }
        i = i + 1;
    }
    assert(a@ =~= b@);
    true
}

/// The token of a keyword or punctuation mark.
fn keyword(word: &str) -> (r: Option<LexToken>)
    ensures
        r == keyword_token(word@),
{
    if text_is(word, "{") {
        Some(LexToken::OpenBrace)
    } else if text_is(word, "}") {
        Some(LexToken::CloseBrace)
    } else if text_is(word, "(") {
        Some(LexToken::OpenParenth)
    } else if text_is(word, ")") {
        Some(LexToken::CloseParenth)
    } else if text_is(word, ";") {
        Some(LexToken::Semicolon)
    } else if text_is(word, "int") {
        Some(LexToken::Int)
    } else if text_is(word, "return") {
        Some(LexToken::Return)
    } else if text_is(word, "-") {
        Some(LexToken::Negation)
    } else if text_is(word, "~") {
        Some(LexToken::BitwiseComplement)
    } else if text_is(word, "!") {
        Some(LexToken::LogicalNegation)
    } else if text_is(word, "+") {
        Some(LexToken::Addition)
    } else if text_is(word, "*") {
        Some(LexToken::Multiplication)
    } else if text_is(word, "/") {
        Some(LexToken::Division)
    } else {
        None
    }
}

fn is_space_char(c: char) -> (r: bool)
    ensures
        r == is_space(c),
{
    ('\t' <= c && c <= '\r') || c == ' ' || c == '\u{85}' || c == '\u{a0}' || c == '\u{1680}'
        || ('\u{2000}' <= c && c <= '\u{200a}') || c == '\u{2028}' || c == '\u{2029}'
        || c == '\u{202f}' || c == '\u{205f}' || c == '\u{3000}'
}

/// The words of `s`: its maximal runs of characters other than whitespace.
pub fn split_words(s: &str) -> (r: Vec<String>)
    ensures
        r@.map_values(|w: String| w@) == words_of(s@),
{
    let n = s.unicode_len();
    let mut words: Vec<String> = Vec::new();
    let mut start: usize = 0;
    let mut i: usize = 0;
    while i < n
        invariant
            n == s@.len(),
            start <= i <= n,
            start < i ==> !is_space(s@[i - 1]),
            start == i ==> (i == 0 || is_space(s@[i - 1])),
            forall|k: int| start <= k < i ==> !is_space(#[trigger] s@[k]),
            words_of(s@.subrange(0, i as int)) == if start < i {
                words@.map_values(|w: String| w@).push(s@.subrange(start as int, i as int))
            } else {
                words@.map_values(|w: String| w@)
            },
        decreases n - i,
    {
        let c = s.get_char(i);
        let ghost pre = s@.subrange(0, i as int);
        let ghost ws = words@.map_values(|w: String| w@);
        proof {
            let cur = s@.subrange(0, i + 1);
            assert(cur.drop_last() =~= pre);
            assert(cur.last() == c);
            if i >= 1 {
                assert(cur[cur.len() - 2] == s@[i - 1]);
            }
        }
        if is_space_char(c) {
            if start < i {
                let w = String::from_str(s.substring_char(start, i));
                words.push(w);
                assert(words@.map_values(|w: String| w@) =~= ws.push(s@.subrange(start as int, i as int)));
            }
            start = i + 1;
        } else {
            proof {
                if start < i {
                    let a = ws.push(s@.subrange(start as int, i as int));
                    assert(a.drop_last() =~= ws);
                    assert(s@.subrange(start as int, i as int).push(c) =~= s@.subrange(start as int, i + 1));
                } else {
                    assert(seq![c] =~= s@.subrange(start as int, i + 1));
                }
            }
        }
        i = i + 1;
    }
    let ghost ws = words@.map_values(|w: String| w@);
    if start < n {
        let w = String::from_str(s.substring_char(start, n));
        words.push(w);
        assert(words@.map_values(|w: String| w@) =~= ws.push(s@.subrange(start as int, n as int)));
    }
    assert(s@.subrange(0, n as int) =~= s@);
    words
}

/// `string` with a space put on each side of every character that
/// `SPACING_PATTERN` matches.
pub fn format_spacing(string: &str) -> (r: String)
    ensures
        r@ == spaced_text(string@),
{
    match replace_all_matches(SPACING_PATTERN, string, SPACING_REPLACEMENT) {
        Some(spaced) => spaced,
        // The spacing pattern compiles, so this arm is never taken.
        None => String::new(),
    }
}

/// The tokens of a text in which every character of `SPACING_PATTERN`
/// already stands apart: one token per word, in order; the first word that
/// matches no token pattern is a lexical error.
pub fn tokens_of_spaced(spaced: &str) -> (r: Result<Vec<LexToken>, CompileError>)
    ensures
        match r {
            Ok(toks) => tokens_of_words(words_of(spaced@), toks@),
            Err(CompileError::Lexical { line: 0, word }) => first_undefined(
                words_of(spaced@),
                word as int,
            ),
            Err(_) => false,
        },
{
    let words = split_words(spaced);
    let ghost ws = words@.map_values(|w: String| w@);
    let mut toks: Vec<LexToken> = Vec::new();
    let mut i: usize = 0;
    while i < words.len()
        invariant
            i <= words.len(),
            ws == words@.map_values(|w: String| w@),
            ws == words_of(spaced@),
            toks@.len() == i,
            forall|j: int|
                0 <= j < i ==> word_token(
                    ws[j],
                    is_identifier_word(ws[j]),
                    is_literal_word(ws[j]),
                    #[trigger] toks@[j],
                ) && !(toks@[j] is Undefined),
        decreases words.len() - i,
    {
        let t = LexToken::from_str(words[i].as_str());
        assert(ws[i as int] == words@[i as int]@);
        if matches!(t, LexToken::Undefined) {
            proof {
                assert forall|j: int| 0 <= j < i implies !is_undefined_word(#[trigger] ws[j]) by {
                    assert(word_token(ws[j], is_identifier_word(ws[j]), is_literal_word(ws[j]), toks@[j]));
                }
            }
            return Err(CompileError::Lexical { line: 0, word: i });
        }
        toks.push(t);
        i = i + 1;
    }
    Ok(toks)
}

/// The tokens of one line of source text, one per word, in order; the first
/// word that matches no token pattern is a lexical error.
pub fn from_line(line: &str) -> (r: Result<Vec<LexToken>, CompileError>)
    ensures
        match r {
            Ok(toks) => tokens_of_words(line_words(line@), toks@),
            Err(CompileError::Lexical { line: 0, word }) => first_undefined(
                line_words(line@),
                word as int,
            ),
            Err(_) => false,
        },
{
    let spaced = format_spacing(line);
    tokens_of_spaced(spaced.as_str())
}

/// The tokens of a source text given as its lines: the tokens of each line,
/// in the order of the lines. The first word that matches no token pattern is
/// a lexical error that names its line and its place in that line.
pub fn lex(lines: &Vec<String>) -> (r: Result<Vec<LexToken>, CompileError>)
    ensures
        match r {
            Ok(toks) => tokens_of_words(source_words(lines_view(lines@)), toks@),
            Err(CompileError::Lexical { line, word }) => {
                &&& line < lines.len()
                &&& forall|k: int|
                    0 <= k < line ==> all_defined(line_words(#[trigger] lines_view(lines@)[k]))
                &&& first_undefined(line_words(lines_view(lines@)[line as int]), word as int)
            },
            Err(_) => false,
        },
{
    let ghost ls = lines_view(lines@);
    let mut toks: Vec<LexToken> = Vec::new();
    let mut k: usize = 0;
    while k < lines.len()
        invariant
            k <= lines.len(),
            ls == lines_view(lines@),
            tokens_of_words(source_words(ls.subrange(0, k as int)), toks@),
            forall|j: int| 0 <= j < k ==> all_defined(line_words(#[trigger] ls[j])),
        decreases lines.len() - k,
    {
        assert(ls[k as int] == lines@[k as int]@);
        match from_line(lines[k].as_str()) {
            Ok(mut line_toks) => {
                let ghost before = toks@;
                let ghost lw = line_words(ls[k as int]);
                let ghost prev = source_words(ls.subrange(0, k as int));
                proof {
                    assert(ls.subrange(0, k + 1).drop_last() =~= ls.subrange(0, k as int));
                    assert(all_defined(lw)) by {
                        assert forall|i: int| 0 <= i < lw.len() implies !is_undefined_word(
                            #[trigger] lw[i],
                        ) by {
                            assert(word_token(
                                lw[i],
                                is_identifier_word(lw[i]),
                                is_literal_word(lw[i]),
                                line_toks@[i],
                            ));
                        }
                    }
                }
                toks.append(&mut line_toks);
                proof {
                    let all = source_words(ls.subrange(0, k + 1));
                    assert(all == prev + lw);
                    assert forall|i: int| 0 <= i < all.len() implies word_token(
                        all[i],
                        is_identifier_word(all[i]),
                        is_literal_word(all[i]),
                        #[trigger] toks@[i],
                    ) && !(toks@[i] is Undefined) by {
                        if i < prev.len() {
                            assert(all[i] == prev[i]);
                            assert(toks@[i] == before[i]);
                        } else {
                            assert(all[i] == lw[i - prev.len()]);
                        }
                    }
                }
            },
            Err(CompileError::Lexical { line: _, word }) => {
                return Err(CompileError::Lexical { line: k, word });
            },
            Err(err) => {
                return Err(err);
            },
        }
        k = k + 1;
    }
    assert(ls.subrange(0, lines.len() as int) =~= ls);
    Ok(toks)
}

impl LexToken {
    /// The token of a word, given whether it is an identifier and whether it
    /// is an integer literal.
    pub fn classify(word: &str, is_identifier: bool, is_literal: bool) -> (r: LexToken)
        ensures
            word_token(word@, is_identifier, is_literal, r),
    {
        match keyword(word) {
            Some(k) => k,
            None => if is_identifier {
                LexToken::Identifier(String::from_str(word))
            } else if is_literal {
                LexToken::IntLiteral(String::from_str(word))
            } else {
                LexToken::Undefined
            },
        }
    }

    /// The token of a word: a keyword or punctuation mark, else an
    /// identifier (`IDENTIFIER_PATTERN`), else an integer literal
    /// (`LITERAL_PATTERN`), else `Undefined`.
    pub fn from_str(lex_str: &str) -> (r: LexToken)
        ensures
            word_token(lex_str@, is_identifier_word(lex_str@), is_literal_word(lex_str@), r),
    {
        if let Some(k) = keyword(lex_str) {
            return k;
        }
        let is_identifier = pattern_matches(IDENTIFIER_PATTERN, lex_str);
        let is_literal = !is_identifier && pattern_matches(LITERAL_PATTERN, lex_str);
        LexToken::classify(lex_str, is_identifier, is_literal)
    }

    /// The text the token stands for; `None` for `Undefined`.
    pub fn to_str(&self) -> (r: Option<&str>)
        ensures
            match r {
                Some(s) => token_text(*self) == Some(s@),
                None => token_text(*self) is None,
            },
    {
        match self {
            LexToken::OpenBrace => Some("{"),
            LexToken::CloseBrace => Some("}"),
            LexToken::OpenParenth => Some("("),
            LexToken::CloseParenth => Some(")"),
            LexToken::Semicolon => Some(";"),
            LexToken::Int => Some("int"),
            LexToken::Return => Some("return"),
            LexToken::Negation => Some("-"),
            LexToken::BitwiseComplement => Some("~"),
            LexToken::LogicalNegation => Some("!"),
            LexToken::Identifier(id) => Some(id.as_str()),
            LexToken::IntLiteral(text) => Some(text.as_str()),
            LexToken::Addition => Some("+"),
            LexToken::Multiplication => Some("*"),
            LexToken::Division => Some("/"),
            LexToken::Undefined => None,
        }
    }
}

} // verus!
