//! Cutting a SystemVerilog source text into tokens.

use vstd::prelude::*;
use crate::lang::Position;
use crate::lexer::{advance, is_space, next_lexeme, place_of, line_of, line_start, skip_space};
use crate::results::{all_or_first_failure, first_failure, keep_successes, successes};
use crate::scan::{first_at, lemma_first_at, lemma_first_at_is_first};
use crate::sv::token::{Keyword, Operator, SystemVerilogError, SystemVerilogToken, Token, TokenView};
use crate::text::{chars_eq, chars_of, slice_chars, string_of};

verus! {

/// A character that a word can start with.
pub open spec fn is_word_start(c: char) -> bool {
    ('a' <= c && c <= 'z') || ('A' <= c && c <= 'Z') || c == '_' || c == '$'
}

/// A character that a word can go on with.
pub open spec fn is_word_char(c: char) -> bool {
    is_word_start(c) || ('0' <= c && c <= '9')
}

/// A character that a number starts with.
pub open spec fn is_number_start(c: char) -> bool {
    '0' <= c && c <= '9'
}

/// A character that a number can go on with.
pub open spec fn is_number_char(c: char) -> bool {
    is_word_char(c) || c == '\'' || c == '.'
}

/// A token with its place, or what is wrong with a lexeme.
pub type Lexed = Result<(Position, TokenView), SystemVerilogError>;

/// What kind of lexeme starts at a place.
pub enum Lexeme {
    /// `//` up to the end of the line.
    LineComment,
    /// `/*` up to and including `*/`.
    BlockComment,
    /// `"` up to and including the next `"` that no backslash stands
    /// before.
    Text,
    /// `(*`, unless `)` follows.
    AttrL,
    /// `*)`, unless `(` stands before.
    AttrR,
    /// A letter, `_` or `$`, and the letters, digits, `_` and `$` that
    /// follow.
    Word,
    /// A backslash and what follows up to the next white space.
    Escaped,
    /// A grave accent and the letters, digits, `_` and `$` that follow.
    Directive,
    /// A digit, and the letters, digits, `_`, `$`, `'` and `.` that follow.
    Number,
    /// One character.
    Single,
}

/// The kind of the lexeme that starts at `a`.
pub open spec fn lexeme_at(s: Seq<char>, a: int) -> Lexeme {
    let c = s[a];
    let next_is = |d: char| a + 1 < s.len() && s[a + 1] == d;
    if c == '/' && next_is('/') {
        Lexeme::LineComment
    } else if c == '/' && next_is('*') {
        Lexeme::BlockComment
    } else if c == '"' {
        Lexeme::Text
    } else if c == '(' && next_is('*') && !(a + 2 < s.len() && s[a + 2] == ')') {
        Lexeme::AttrL
    } else if c == '*' && next_is(')') && !(a > 0 && s[a - 1] == '(') {
        Lexeme::AttrR
    } else if is_word_start(c) {
        Lexeme::Word
    } else if c == '\\' {
        Lexeme::Escaped
    } else if c == '`' {
        Lexeme::Directive
    } else if is_number_start(c) {
        Lexeme::Number
    } else {
        Lexeme::Single
    }
}

/// The place of the `*` of the first `*/` at or after `from`, or the
/// length of `s`.
pub open spec fn comment_close(s: Seq<char>, from: int) -> int {
    first_at(|i: int| s[i] == '*' && i + 1 < s.len() && s[i + 1] == '/', from, s.len() as int)
}

/// The place of the first `"` at or after `from` that no backslash stands
/// before, or the length of `s`.
pub open spec fn text_close(s: Seq<char>, from: int) -> int {
    first_at(|i: int| s[i] == '"' && s[i - 1] != '\\', from, s.len() as int)
}

/// The place behind the lexeme that starts at `a`.
pub open spec fn lexeme_end(s: Seq<char>, a: int) -> int {
    let len = s.len() as int;
    match lexeme_at(s, a) {
        Lexeme::LineComment => first_at(|i: int| s[i] == '\n', a + 2, len),
        Lexeme::BlockComment => {
            let close = comment_close(s, a + 2);
            if close < len {
                close + 2
            } else {
                len
            }
        },
        Lexeme::Text => {
            let close = text_close(s, a + 1);
            if close < len {
                close + 1
            } else {
                len
            }
        },
        Lexeme::AttrL => a + 2,
        Lexeme::AttrR => a + 2,
        Lexeme::Word => first_at(|i: int| !is_word_char(s[i]), a + 1, len),
        Lexeme::Escaped => first_at(|i: int| is_space(s[i]), a + 1, len),
        Lexeme::Directive => first_at(|i: int| !is_word_char(s[i]), a + 1, len),
        Lexeme::Number => first_at(|i: int| !is_number_char(s[i]), a + 1, len),
        Lexeme::Single => a + 1,
    }
}

/// The reserved words other than `module`, `macromodule` and `endmodule`
/// that are told from names.
pub open spec fn reserved_words() -> Seq<Seq<char>> {
    seq![
        "always"@,
        "always_comb"@,
        "always_ff"@,
        "always_latch"@,
        "and"@,
        "assert"@,
        "assign"@,
        "automatic"@,
        "begin"@,
        "bit"@,
        "byte"@,
        "case"@,
        "casex"@,
        "casez"@,
        "class"@,
        "const"@,
        "default"@,
        "defparam"@,
        "else"@,
        "end"@,
        "endcase"@,
        "endclass"@,
        "endfunction"@,
        "endgenerate"@,
        "endinterface"@,
        "endpackage"@,
        "endprogram"@,
        "endtask"@,
        "enum"@,
        "export"@,
        "for"@,
        "forever"@,
        "function"@,
        "generate"@,
        "genvar"@,
        "if"@,
        "import"@,
        "initial"@,
        "inout"@,
        "input"@,
        "int"@,
        "integer"@,
        "interface"@,
        "localparam"@,
        "logic"@,
        "negedge"@,
        "not"@,
        "or"@,
        "output"@,
        "package"@,
        "packed"@,
        "parameter"@,
        "posedge"@,
        "program"@,
        "real"@,
        "reg"@,
        "repeat"@,
        "return"@,
        "signed"@,
        "static"@,
        "struct"@,
        "task"@,
        "time"@,
        "typedef"@,
        "union"@,
        "unsigned"@,
        "var"@,
        "while"@,
        "wire"@,
    ]
}

/// The token that the word `w` is: a reserved word or a name.
pub open spec fn word_token(w: Seq<char>) -> TokenView {
    if w == "module"@ {
        TokenView::Keyword(Keyword::Module)
    } else if w == "macromodule"@ {
        TokenView::Keyword(Keyword::Macromodule)
    } else if w == "endmodule"@ {
        TokenView::Keyword(Keyword::Endmodule)
    } else if reserved_words().contains(w) {
        TokenView::Reserved(w)
    } else {
        TokenView::Identifier(w)
    }
}

/// The token that the one character `c` is.
pub open spec fn single_token(c: char) -> TokenView {
    TokenView::Operator(
        if c == '(' {
            Operator::ParenL
        } else if c == ')' {
            Operator::ParenR
        } else if c == ';' {
            Operator::Semicolon
        } else if c == ',' {
            Operator::Comma
        } else if c == '#' {
            Operator::Pound
        } else {
            Operator::Other(c)
        },
    )
}

/// The token of the lexeme that starts at `a`, or what is wrong with it:
/// a block comment and a text have to be closed.
pub open spec fn lexeme_token(s: Seq<char>, a: int) -> Result<TokenView, SystemVerilogError> {
    let len = s.len() as int;
    let end = lexeme_end(s, a);
    match lexeme_at(s, a) {
        Lexeme::LineComment => Ok(TokenView::Comment(s.subrange(a + 2, end))),
        Lexeme::BlockComment => if comment_close(s, a + 2) < len {
            Ok(TokenView::Comment(s.subrange(a + 2, end - 2)))
        } else {
            Err(SystemVerilogError::UnclosedComment)
        },
        Lexeme::Text => if text_close(s, a + 1) < len {
            Ok(TokenView::StringLiteral(s.subrange(a + 1, end - 1)))
        } else {
            Err(SystemVerilogError::UnclosedString)
        },
        Lexeme::AttrL => Ok(TokenView::Operator(Operator::AttrL)),
        Lexeme::AttrR => Ok(TokenView::Operator(Operator::AttrR)),
        Lexeme::Word => Ok(word_token(s.subrange(a, end))),
        Lexeme::Escaped => Ok(TokenView::Identifier(s.subrange(a + 1, end))),
        Lexeme::Directive => Ok(TokenView::Directive(s.subrange(a + 1, end))),
        Lexeme::Number => Ok(TokenView::Number(s.subrange(a, end))),
        Lexeme::Single => Ok(single_token(s[a])),
    }
}

/// The lexemes of `s` from the place `at` on, each with its place: white
/// space between them is passed over, and the end of the text is a token of
/// its own.
pub open spec fn lex_from(s: Seq<char>, at: int) -> Seq<Lexed>
    decreases s.len() - at,
{
    let a = next_lexeme(s, at);
    if at < 0 || a < at || a >= s.len() {
        seq![Ok((place_of(s, s.len() as int), TokenView::EOF))]
    } else {
        let end = lexeme_end(s, a);
        if end <= a || end > s.len() {
            seq![lexed_at(s, a)]
        } else {
            seq![lexed_at(s, a)] + lex_from(s, end)
        }
    }
}

/// The token of the lexeme that starts at `a` with its place, or what is
/// wrong with the lexeme.
pub open spec fn lexed_at(s: Seq<char>, a: int) -> Lexed {
    match lexeme_token(s, a) {
        Ok(t) => Ok((place_of(s, a), t)),
        Err(e) => Err(e),
    }
}

/// The lexemes of the text `s`.
pub open spec fn lex(s: Seq<char>) -> Seq<Lexed> {
    lex_from(s, 0)
}

/// A lexeme is not empty and ends within the text.
pub proof fn lemma_lexeme_end(s: Seq<char>, a: int)
    requires
        0 <= a < s.len(),
    ensures
        a < lexeme_end(s, a) <= s.len(),
{
    let len = s.len() as int;
    match lexeme_at(s, a) {
        Lexeme::LineComment => {
            lemma_first_at_is_first(|i: int| s[i] == '\n', a + 2, len);
        },
        Lexeme::BlockComment => {
            lemma_first_at_is_first(
                |i: int| s[i] == '*' && i + 1 < s.len() && s[i + 1] == '/',
                a + 2,
                len,
            );
        },
        Lexeme::Text => {
            lemma_first_at_is_first(|i: int| s[i] == '"' && s[i - 1] != '\\', a + 1, len);
        },
        Lexeme::AttrL => {},
        Lexeme::AttrR => {},
        Lexeme::Word => {
            lemma_first_at_is_first(|i: int| !is_word_char(s[i]), a + 1, len);
        },
        Lexeme::Escaped => {
            lemma_first_at_is_first(|i: int| is_space(s[i]), a + 1, len);
        },
        Lexeme::Directive => {
            lemma_first_at_is_first(|i: int| !is_word_char(s[i]), a + 1, len);
        },
        Lexeme::Number => {
            lemma_first_at_is_first(|i: int| !is_number_char(s[i]), a + 1, len);
        },
        Lexeme::Single => {},
    }
}

/// The value of what the tokenizer hands back for one lexeme.
pub open spec fn lexed_view(r: Result<Token, SystemVerilogError>) -> Lexed {
    match r {
        Ok(t) => Ok((t.spec_position(), t@)),
        Err(e) => Err(e),
    }
}

/// The values of what the tokenizer hands back.
pub open spec fn all_lexed_view(out: Seq<Result<Token, SystemVerilogError>>) -> Seq<Lexed> {
    Seq::new(out.len(), |i: int| lexed_view(out[i]))
}

fn is_word_char_of(c: char) -> (r: bool)
    ensures
        r == is_word_char(c),
{
    (c >= 'a' && c <= 'z') || (c >= 'A' && c <= 'Z') || c == '_' || c == '$' || (c >= '0' && c
        <= '9')
}

/// The place behind the word that starts before `from`.
fn word_end(s: &Vec<char>, from: usize) -> (at: usize)
    requires
        from <= s.len(),
    ensures
        at == first_at(|i: int| !is_word_char(s@[i]), from as int, s.len() as int),
        from <= at <= s.len(),
{
    let mut i: usize = from;
    while i < s.len() && is_word_char_of(s[i])
        invariant
            from <= i <= s.len(),
            forall|j: int| from <= j < i ==> is_word_char(s[j]),
        decreases s.len() - i,
    {
        i += 1;
    }
    proof {
        lemma_first_at(|i: int| !is_word_char(s@[i]), from as int, s.len() as int, i as int);
    }
    i
}

/// The place behind the number that starts before `from`.
fn number_end(s: &Vec<char>, from: usize) -> (at: usize)
    requires
        from <= s.len(),
    ensures
        at == first_at(|i: int| !is_number_char(s@[i]), from as int, s.len() as int),
        from <= at <= s.len(),
{
    let mut i: usize = from;
    while i < s.len() && (is_word_char_of(s[i]) || s[i] == '\'' || s[i] == '.')
        invariant
            from <= i <= s.len(),
            forall|j: int| from <= j < i ==> is_number_char(s[j]),
        decreases s.len() - i,
    {
        i += 1;
    }
    proof {
        lemma_first_at(|i: int| !is_number_char(s@[i]), from as int, s.len() as int, i as int);
    }
    i
}

/// The place of the first white space at or after `from`.
fn space_at(s: &Vec<char>, from: usize) -> (at: usize)
    requires
        from <= s.len(),
    ensures
        at == first_at(|i: int| is_space(s@[i]), from as int, s.len() as int),
        from <= at <= s.len(),
{
    let mut i: usize = from;
    while i < s.len() && !(s[i] == ' ' || s[i] == '\t' || s[i] == '\n' || s[i] == '\r')
        invariant
            from <= i <= s.len(),
            forall|j: int| from <= j < i ==> !is_space(s[j]),
        decreases s.len() - i,
    {
        i += 1;
    }
    proof {
        lemma_first_at(|i: int| is_space(s@[i]), from as int, s.len() as int, i as int);
    }
    i
}

/// The place of the first line feed at or after `from`.
fn line_end(s: &Vec<char>, from: usize) -> (at: usize)
    requires
        from <= s.len(),
    ensures
        at == first_at(|i: int| s@[i] == '\n', from as int, s.len() as int),
        from <= at <= s.len(),
{
    let mut i: usize = from;
    while i < s.len() && s[i] != '\n'
        invariant
            from <= i <= s.len(),
            forall|j: int| from <= j < i ==> s[j] != '\n',
        decreases s.len() - i,
    {
        i += 1;
    }
    proof {
        lemma_first_at(|i: int| s@[i] == '\n', from as int, s.len() as int, i as int);
    }
    i
}

/// The place of the `*` of the first `*/` at or after `from`.
fn find_comment_close(s: &Vec<char>, from: usize) -> (at: usize)
    requires
        from <= s.len(),
    ensures
        at == comment_close(s@, from as int),
        from <= at <= s.len(),
        at < s.len() ==> at + 1 < s.len(),
{
    let mut i: usize = from;
    while i < s.len() && !(s[i] == '*' && i + 1 < s.len() && s[i + 1] == '/')
        invariant
            from <= i <= s.len(),
            forall|j: int|
                from <= j < i ==> !(#[trigger] s[j] == '*' && j + 1 < s.len() && s[j + 1] == '/'),
        decreases s.len() - i,
    {
        i += 1;
    }
    proof {
        lemma_first_at(
            |i: int| s@[i] == '*' && i + 1 < s@.len() && s@[i + 1] == '/',
            from as int,
            s.len() as int,
            i as int,
        );
    }
    i
}

/// The place of the first `"` at or after `from` that no backslash stands
/// before.
fn find_text_close(s: &Vec<char>, from: usize) -> (at: usize)
    requires
        0 < from <= s.len(),
    ensures
        at == text_close(s@, from as int),
        from <= at <= s.len(),
{
    let mut i: usize = from;
    while i < s.len() && !(s[i] == '"' && s[i - 1] != '\\')
        invariant
            0 < from <= i <= s.len(),
            forall|j: int| from <= j < i ==> !(#[trigger] s[j] == '"' && s[j - 1] != '\\'),
        decreases s.len() - i,
    {
        i += 1;
    }
    proof {
        lemma_first_at(
            |i: int| s@[i] == '"' && s@[i - 1] != '\\',
            from as int,
            s.len() as int,
            i as int,
        );
    }
    i
}

/// The reserved words other than `module`, `macromodule` and `endmodule`.
fn reserved() -> (words: Vec<&'static str>)
    ensures
        words.len() == reserved_words().len(),
        forall|i: int| 0 <= i < words.len() ==> (#[trigger] words[i])@ == reserved_words()[i],
{
    let words = vec![
        "always",
        "always_comb",
        "always_ff",
        "always_latch",
        "and",
        "assert",
        "assign",
        "automatic",
        "begin",
        "bit",
        "byte",
        "case",
        "casex",
        "casez",
        "class",
        "const",
        "default",
        "defparam",
        "else",
        "end",
        "endcase",
        "endclass",
        "endfunction",
        "endgenerate",
        "endinterface",
        "endpackage",
        "endprogram",
        "endtask",
        "enum",
        "export",
        "for",
        "forever",
        "function",
        "generate",
        "genvar",
        "if",
        "import",
        "initial",
        "inout",
        "input",
        "int",
        "integer",
        "interface",
        "localparam",
        "logic",
        "negedge",
        "not",
        "or",
        "output",
        "package",
        "packed",
        "parameter",
        "posedge",
        "program",
        "real",
        "reg",
        "repeat",
        "return",
        "signed",
        "static",
        "struct",
        "task",
        "time",
        "typedef",
        "union",
        "unsigned",
        "var",
        "while",
        "wire",
    ];
    words
}

/// Whether `w` is `word`.
fn is_word(w: &Vec<char>, word: &str) -> (r: bool)
    ensures
        r == (w@ == word@),
{
    let other = chars_of(word);
    chars_eq(w, &other)
}

/// The token that the word `w` is.
fn word_kind(w: &Vec<char>) -> (t: SystemVerilogToken)
    ensures
        t@ == word_token(w@),
{
    if is_word(w, "module") {
        return SystemVerilogToken::Keyword(Keyword::Module);
    }
    if is_word(w, "macromodule") {
        return SystemVerilogToken::Keyword(Keyword::Macromodule);
    }
    if is_word(w, "endmodule") {
        return SystemVerilogToken::Keyword(Keyword::Endmodule);
    }
    let words = reserved();
    let mut i: usize = 0;
    while i < words.len()
        invariant
            i <= words.len(),
            words.len() == reserved_words().len(),
            forall|i: int| 0 <= i < words.len() ==> (#[trigger] words[i])@ == reserved_words()[i],
            forall|j: int| 0 <= j < i ==> reserved_words()[j] != w@,
            w@ != "module"@,
            w@ != "macromodule"@,
            w@ != "endmodule"@,
        decreases words.len() - i,
    {
        if is_word(w, words[i]) {
            assert(reserved_words()[i as int] == w@);
            assert(reserved_words().contains(w@));
            return SystemVerilogToken::Reserved(string_of(w));
        }
        i += 1;
    }
    SystemVerilogToken::Identifier(string_of(w))
}

/// The token that the one character `c` is.
fn single_kind(c: char) -> (t: SystemVerilogToken)
    ensures
        t@ == single_token(c),
{
    SystemVerilogToken::Operator(
        if c == '(' {
            Operator::ParenL
        } else if c == ')' {
            Operator::ParenR
        } else if c == ';' {
            Operator::Semicolon
        } else if c == ',' {
            Operator::Comma
        } else if c == '#' {
            Operator::Pound
        } else {
            Operator::Other(c)
        },
    )
}

/// Reads the lexeme that starts at `a`: its token or what is wrong with
/// it, and the place behind it.
fn read_lexeme(s: &Vec<char>, a: usize) -> (r: (Result<SystemVerilogToken, SystemVerilogError>, usize))
    requires
        a < s.len(),
    ensures
        r.1 == lexeme_end(s@, a as int),
        a < r.1 <= s.len(),
        match r.0 {
            Ok(t) => lexeme_token(s@, a as int) == Ok::<TokenView, SystemVerilogError>(t@),
            Err(e) => lexeme_token(s@, a as int) == Err::<TokenView, SystemVerilogError>(e),
        },
{
    proof {
        lemma_lexeme_end(s@, a as int);
    }
    let c = s[a];
    let has_next = a + 1 < s.len();
    if c == '/' && has_next && s[a + 1] == '/' {
        let end = line_end(s, a + 2);
        (Ok(SystemVerilogToken::Comment(string_of(&slice_chars(s, a + 2, end)))), end)
    } else if c == '/' && has_next && s[a + 1] == '*' {
        let close = find_comment_close(s, a + 2);
        if close < s.len() {
            (Ok(SystemVerilogToken::Comment(string_of(&slice_chars(s, a + 2, close)))), close + 2)
        } else {
            (Err(SystemVerilogError::UnclosedComment), s.len())
        }
    } else if c == '"' {
        let close = find_text_close(s, a + 1);
        if close < s.len() {
            (
                Ok(SystemVerilogToken::StringLiteral(string_of(&slice_chars(s, a + 1, close)))),
                close + 1,
            )
        } else {
            (Err(SystemVerilogError::UnclosedString), s.len())
        }
    } else if c == '(' && has_next && s[a + 1] == '*' && !(a + 2 < s.len() && s[a + 2] == ')') {
        (Ok(SystemVerilogToken::Operator(Operator::AttrL)), a + 2)
    } else if c == '*' && has_next && s[a + 1] == ')' && !(a > 0 && s[a - 1] == '(') {
        (Ok(SystemVerilogToken::Operator(Operator::AttrR)), a + 2)
    } else if (c >= 'a' && c <= 'z') || (c >= 'A' && c <= 'Z') || c == '_' || c == '$' {
        let end = word_end(s, a + 1);
        (Ok(word_kind(&slice_chars(s, a, end))), end)
    } else if c == '\\' {
        let end = space_at(s, a + 1);
        (Ok(SystemVerilogToken::Identifier(string_of(&slice_chars(s, a + 1, end)))), end)
    } else if c == '`' {
        let end = word_end(s, a + 1);
        (Ok(SystemVerilogToken::Directive(string_of(&slice_chars(s, a + 1, end)))), end)
    } else if c >= '0' && c <= '9' {
        let end = number_end(s, a + 1);
        (Ok(SystemVerilogToken::Number(string_of(&slice_chars(s, a, end)))), end)
    } else {
        (Ok(single_kind(c)), a + 1)
    }
}

/// Cuts the text `s` into its lexemes: a token with its place for each, or
/// what is wrong with it, and a token for the end of the text.
pub fn tokenize(s: &Vec<char>) -> (out: Vec<Result<Token, SystemVerilogError>>)
    ensures
        all_lexed_view(out@) == lex(s@),
{
    let mut out: Vec<Result<Token, SystemVerilogError>> = Vec::new();
    let mut i: usize = 0;
    let mut line: usize = 0;
    let mut start: usize = 0;
    assert(all_lexed_view(out@) + lex_from(s@, 0) =~= lex(s@));
    loop
        invariant
            i <= s.len(),
            line == line_of(s@, i as int),
            start == line_start(s@, i as int),
            start <= i,
            all_lexed_view(out@) + lex_from(s@, i as int) == lex(s@),
        decreases s.len() - i,
    {
        let a = skip_space(s, i);
        let (l, st) = advance(s, i, a, line, start);
        let ghost before = all_lexed_view(out@);
        if a >= s.len() {
            out.push(Ok(Token::new(SystemVerilogToken::EOF, Position::place(l, a - st))));
            proof {
                assert(all_lexed_view(out@) =~= before + lex_from(s@, i as int));
            }
            return out;
        }
        let (token, end) = read_lexeme(s, a);
        let lexed = match token {
            Ok(t) => Ok(Token::new(t, Position::place(l, a - st))),
            Err(e) => Err(e),
        };
        out.push(lexed);
        let (l2, st2) = advance(s, a, end, l, st);
        proof {
            assert(lexed_view(lexed) == lexed_at(s@, a as int));
            assert(all_lexed_view(out@) =~= before.push(lexed_at(s@, a as int)));
            assert(before.push(lexed_at(s@, a as int)) + lex_from(s@, end as int) =~= before
                + lex_from(s@, i as int));
        }
        i = end;
        line = l2;
        start = st2;
    }
}

/// The tokens of `tokens` with their places.
pub open spec fn placed_view(tokens: Seq<Token>) -> Seq<(Position, TokenView)> {
    Seq::new(tokens.len(), |i: int| (tokens[i].spec_position(), tokens[i]@))
}

/// What succeeded and what failed first among the lexemes read is what
/// succeeded and what failed first among their values.
pub proof fn lemma_lexed_results(out: Seq<Result<Token, SystemVerilogError>>)
    ensures
        placed_view(successes(out)) == successes(all_lexed_view(out)),
        first_failure(out) == first_failure(all_lexed_view(out)),
    decreases out.len(),
{
    if out.len() > 0 {
        lemma_lexed_results(out.drop_last());
        assert(all_lexed_view(out).drop_last() =~= all_lexed_view(out.drop_last()));
        assert(all_lexed_view(out).last() == lexed_view(out.last()));
        match out.last() {
            Ok(t) => {
                assert(placed_view(successes(out)) =~= placed_view(successes(out.drop_last())).push(
                    (t.spec_position(), t@),
                ));
            },
            Err(_) => {},
        }
    } else {
        assert(placed_view(successes(out)) =~= Seq::empty());
    }
}

/// The tokens of a source text.
#[derive(Debug, PartialEq, Eq)]
pub struct SystemVerilogTokenizer {
    tokens: Vec<Token>,
}

impl SystemVerilogTokenizer {
    /// The tokens with their places.
    pub closed spec fn view(&self) -> Seq<(Position, TokenView)> {
        placed_view(self.tokens@)
    }

    /// Cuts a source text into tokens and passes over the lexemes that are
    /// wrong.
    pub fn from_source_code(s: &str) -> (t: Self)
        ensures
            t@ == successes(lex(s@)),
    {
        let out = tokenize(&chars_of(s));
        proof {
            lemma_lexed_results(out@);
        }
        SystemVerilogTokenizer { tokens: keep_successes(out) }
    }

    /// Cuts a source text into tokens; fails with what is wrong with the
    /// first lexeme that is wrong.
    pub fn from_str(s: &str) -> (r: Result<Self, SystemVerilogError>)
        ensures
            match r {
                Ok(t) => first_failure(lex(s@)) is None && t@ == successes(lex(s@)),
                Err(e) => first_failure(lex(s@)) == Some(e),
            },
    {
        let out = tokenize(&chars_of(s));
        proof {
            lemma_lexed_results(out@);
        }
        match all_or_first_failure(out) {
            Ok(tokens) => Ok(SystemVerilogTokenizer { tokens }),
            Err(e) => Err(e),
        }
    }

    /// The tokens.
    pub fn into_tokens(self) -> (tokens: Vec<Token>)
        ensures
            placed_view(tokens@) == self@,
    {
        self.tokens
    }
}

} // verus!
