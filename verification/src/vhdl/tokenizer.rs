//! Cutting a VHDL source text into tokens.

use vstd::prelude::*;
use crate::lang::Position;
use crate::results::{all_or_first_failure, first_failure, keep_successes, successes};
use crate::scan::{first_at, lemma_first_at, lemma_first_at_is_first};
use crate::lexer::{advance, next_lexeme, place_of, line_of, line_start, skip_space};
use crate::text::{chars_eq, chars_of, find_char, position_of, slice_chars, string_of};
use crate::vhdl::token::{placed_view, Keyword, Token, TokenView, VhdlError, VhdlToken};

verus! {

/// A letter of ASCII.
pub open spec fn is_letter(c: char) -> bool {
    ('a' <= c && c <= 'z') || ('A' <= c && c <= 'Z')
}

/// A character that a word can go on with.
pub open spec fn is_word_char(c: char) -> bool {
    is_letter(c) || ('0' <= c && c <= '9') || c == '_'
}

/// A character that a number can go on with.
pub open spec fn is_number_char(c: char) -> bool {
    is_word_char(c) || c == '#' || c == '.'
}

/// The small letter for a capital letter of ASCII, and `c` itself for
/// every other character.
pub open spec fn lower(c: char) -> char {
    if 'A' <= c && c <= 'Z' {
        ((c as u8) + 32) as u8 as char
    } else {
        c
    }
}

/// `s` in small letters.
pub open spec fn lowered(s: Seq<char>) -> Seq<char> {
    Seq::new(s.len(), |i: int| lower(s[i]))
}

/// What kind of lexeme starts at a place.
pub enum Lexeme {
    /// `--` up to the end of the line.
    LineComment,
    /// `/*` up to and including `*/`.
    BlockComment,
    /// `"` up to and including the next `"`.
    Text,
    /// A backslash up to and including the next backslash.
    Extended,
    /// `'`, a character and `'`.
    Character,
    /// A letter and the letters, digits and `_` that follow.
    Word,
    /// A digit and the letters, digits, `_`, `#` and `.` that follow.
    Number,
    /// One character.
    Single,
}

/// The kind of the lexeme that starts at `a`.
pub open spec fn lexeme_at(s: Seq<char>, a: int) -> Lexeme {
    let c = s[a];
    let next_is = |d: char| a + 1 < s.len() && s[a + 1] == d;
    if c == '-' && next_is('-') {
        Lexeme::LineComment
    } else if c == '/' && next_is('*') {
        Lexeme::BlockComment
    } else if c == '"' {
        Lexeme::Text
    } else if c == '\\' {
        Lexeme::Extended
    } else if c == '\'' && a + 2 < s.len() && s[a + 2] == '\'' {
        Lexeme::Character
    } else if is_letter(c) {
        Lexeme::Word
    } else if '0' <= c && c <= '9' {
        Lexeme::Number
    } else {
        Lexeme::Single
    }
}

/// The place of the `*` of the first `*/` at or after `from`, or the
/// length of `s`.
pub open spec fn comment_close(s: Seq<char>, from: int) -> int {
    first_at(|i: int| s[i] == '*' && i + 1 < s.len() && s[i + 1] == '/', from, s.len() as int)
}

/// The place of the first `c` at or after `from`, or the length of `s`.
pub open spec fn char_place(s: Seq<char>, c: char, from: int) -> int {
    position_of(s, c, from)
}

/// The place of the first `c` lies between `from` and the end of the
/// text.
pub proof fn lemma_char_place_range(s: Seq<char>, c: char, from: int)
    requires
        0 <= from <= s.len(),
    ensures
        from <= char_place(s, c, from) <= s.len(),
    decreases s.len() - from,
{
    if from < s.len() && s[from] != c {
        lemma_char_place_range(s, c, from + 1);
    }
}

/// The place behind the lexeme that starts at `a`.
pub open spec fn lexeme_end(s: Seq<char>, a: int) -> int {
    let len = s.len() as int;
    match lexeme_at(s, a) {
        Lexeme::LineComment => char_place(s, '\n', a + 2),
        Lexeme::BlockComment => {
            let close = comment_close(s, a + 2);
            if close < len {
                close + 2
            } else {
                len
            }
        },
        Lexeme::Text => {
            let close = char_place(s, '"', a + 1);
            if close < len {
                close + 1
            } else {
                len
            }
        },
        Lexeme::Extended => {
            let close = char_place(s, '\\', a + 1);
            if close < len {
                close + 1
            } else {
                len
            }
        },
        Lexeme::Character => a + 3,
        Lexeme::Word => first_at(|i: int| !is_word_char(s[i]), a + 1, len),
        Lexeme::Number => first_at(|i: int| !is_number_char(s[i]), a + 1, len),
        Lexeme::Single => a + 1,
    }
}

/// The words that start a declaration.
pub open spec fn declaration_words() -> Seq<Seq<char>> {
    seq![
        "signal"@,
        "variable"@,
        "constant"@,
        "file"@,
        "shared"@,
        "alias"@,
        "attribute"@,
        "type"@,
        "subtype"@,
    ]
}

/// The words that follow `end` where something inside a unit ends.
pub open spec fn closer_words() -> Seq<Seq<char>> {
    seq![
        "process"@,
        "if"@,
        "case"@,
        "loop"@,
        "generate"@,
        "block"@,
        "record"@,
        "units"@,
        "protected"@,
        "postponed"@,
        "for"@,
    ]
}

/// The reserved words that the search for design units makes nothing of.
pub open spec fn other_words() -> Seq<Seq<char>> {
    seq![
        "abs"@,
        "access"@,
        "after"@,
        "all"@,
        "and"@,
        "array"@,
        "assert"@,
        "buffer"@,
        "bus"@,
        "context"@,
        "disconnect"@,
        "downto"@,
        "else"@,
        "elsif"@,
        "exit"@,
        "group"@,
        "guarded"@,
        "impure"@,
        "in"@,
        "inertial"@,
        "inout"@,
        "label"@,
        "library"@,
        "linkage"@,
        "literal"@,
        "map"@,
        "mod"@,
        "nand"@,
        "new"@,
        "next"@,
        "nor"@,
        "not"@,
        "null"@,
        "on"@,
        "open"@,
        "or"@,
        "others"@,
        "out"@,
        "pure"@,
        "range"@,
        "register"@,
        "reject"@,
        "rem"@,
        "report"@,
        "return"@,
        "rol"@,
        "ror"@,
        "select"@,
        "severity"@,
        "sla"@,
        "sll"@,
        "sra"@,
        "srl"@,
        "then"@,
        "to"@,
        "transport"@,
        "unaffected"@,
        "until"@,
        "use"@,
        "wait"@,
        "when"@,
        "while"@,
        "with"@,
        "xnor"@,
        "xor"@,
    ]
}

/// The reserved word that `w` is, in small letters.
pub open spec fn keyword_of(w: Seq<char>) -> Option<Keyword> {
    if w == "entity"@ {
        Some(Keyword::Entity)
    } else if w == "architecture"@ {
        Some(Keyword::Architecture)
    } else if w == "package"@ {
        Some(Keyword::Package)
    } else if w == "configuration"@ {
        Some(Keyword::Configuration)
    } else if w == "component"@ {
        Some(Keyword::Component)
    } else if w == "is"@ {
        Some(Keyword::Is)
    } else if w == "of"@ {
        Some(Keyword::Of)
    } else if w == "end"@ {
        Some(Keyword::End)
    } else if w == "port"@ {
        Some(Keyword::Port)
    } else if w == "generic"@ {
        Some(Keyword::Generic)
    } else if w == "begin"@ {
        Some(Keyword::Begin)
    } else if w == "body"@ {
        Some(Keyword::Body)
    } else if w == "function"@ {
        Some(Keyword::Function)
    } else if w == "procedure"@ {
        Some(Keyword::Procedure)
    } else if declaration_words().contains(w) {
        Some(Keyword::Declaration)
    } else if closer_words().contains(w) {
        Some(Keyword::Closer)
    } else if other_words().contains(w) {
        Some(Keyword::Other)
    } else {
        None
    }
}

/// The token that the word `w` is: a reserved word, in whatever case, or
/// a name.
pub open spec fn word_token(w: Seq<char>) -> TokenView {
    match keyword_of(lowered(w)) {
        Some(k) => TokenView::Keyword(k),
        None => TokenView::Identifier(w),
    }
}

/// The token of the lexeme that starts at `a`, or what is wrong with it.
pub open spec fn lexeme_token(s: Seq<char>, a: int) -> Result<TokenView, VhdlError> {
    let len = s.len() as int;
    let end = lexeme_end(s, a);
    match lexeme_at(s, a) {
        Lexeme::LineComment => Ok(TokenView::Comment(s.subrange(a + 2, end))),
        Lexeme::BlockComment => if comment_close(s, a + 2) < len {
            Ok(TokenView::Comment(s.subrange(a + 2, end - 2)))
        } else {
            Err(VhdlError::UnclosedComment)
        },
        Lexeme::Text => if char_place(s, '"', a + 1) < len {
            Ok(TokenView::Literal(s.subrange(a, end)))
        } else {
            Err(VhdlError::UnclosedString)
        },
        Lexeme::Extended => if char_place(s, '\\', a + 1) < len {
            Ok(TokenView::Identifier(s.subrange(a, end)))
        } else {
            Err(VhdlError::UnclosedIdentifier)
        },
        Lexeme::Character => Ok(TokenView::Literal(s.subrange(a, end))),
        Lexeme::Word => Ok(word_token(s.subrange(a, end))),
        Lexeme::Number => Ok(TokenView::Literal(s.subrange(a, end))),
        Lexeme::Single => Ok(TokenView::Delimiter(s[a])),
    }
}

/// A token with its place, or what is wrong with a lexeme.
pub type Lexed = Result<(Position, TokenView), VhdlError>;

/// The token of the lexeme that starts at `a` with its place, or what is
/// wrong with the lexeme.
pub open spec fn lexed_at(s: Seq<char>, a: int) -> Lexed {
    match lexeme_token(s, a) {
        Ok(t) => Ok((place_of(s, a), t)),
        Err(e) => Err(e),
    }
}

/// The lexemes of `s` from the place `at` on, each with its place: white
/// space between them is passed over, and the end of the text is a token of
/// its own.
pub open spec fn lex_from(s: Seq<char>, at: int) -> Seq<Lexed>
    decreases s.len() - at,
{
    let a = next_lexeme(s, at);
    if at < 0 || a < at || a >= s.len() {
        seq![Ok((place_of(s, s.len() as int), TokenView::EOF))]
    } else {
        let end = lexeme_end(s, a);
        if end <= a || end > s.len() {
            seq![lexed_at(s, a)]
        } else {
            seq![lexed_at(s, a)] + lex_from(s, end)
        }
    }
}

/// The lexemes of the text `s`.
pub open spec fn lex(s: Seq<char>) -> Seq<Lexed> {
    lex_from(s, 0)
}

/// A lexeme is not empty and ends within the text.
pub proof fn lemma_lexeme_end(s: Seq<char>, a: int)
    requires
        0 <= a < s.len(),
    ensures
        a < lexeme_end(s, a) <= s.len(),
{
    let len = s.len() as int;
    match lexeme_at(s, a) {
        Lexeme::LineComment => {
            lemma_char_place_range(s, '\n', a + 2);
        },
        Lexeme::BlockComment => {
            lemma_first_at_is_first(
                |i: int| s[i] == '*' && i + 1 < s.len() && s[i + 1] == '/',
                a + 2,
                len,
            );
        },
        Lexeme::Text => {
            lemma_char_place_range(s, '"', a + 1);
        },
        Lexeme::Extended => {
            lemma_char_place_range(s, '\\', a + 1);
        },
        Lexeme::Character => {},
        Lexeme::Word => {
            lemma_first_at_is_first(|i: int| !is_word_char(s[i]), a + 1, len);
        },
        Lexeme::Number => {
            lemma_first_at_is_first(|i: int| !is_number_char(s[i]), a + 1, len);
        },
        Lexeme::Single => {},
    }
}

/// The value of what the tokenizer hands back for one lexeme.
pub open spec fn lexed_view(r: Result<Token, VhdlError>) -> Lexed {
    match r {
        Ok(t) => Ok((t.spec_position(), t@)),
        Err(e) => Err(e),
    }
}

/// The values of what the tokenizer hands back.
pub open spec fn all_lexed_view(out: Seq<Result<Token, VhdlError>>) -> Seq<Lexed> {
    Seq::new(out.len(), |i: int| lexed_view(out[i]))
}

fn is_word_char_of(c: char) -> (r: bool)
    ensures
        r == is_word_char(c),
{
    (c >= 'a' && c <= 'z') || (c >= 'A' && c <= 'Z') || (c >= '0' && c <= '9') || c == '_'
}

fn word_end(s: &Vec<char>, from: usize) -> (at: usize)
    requires
        from <= s.len(),
    ensures
        at == first_at(|i: int| !is_word_char(s@[i]), from as int, s.len() as int),
        from <= at <= s.len(),
{
    let mut i: usize = from;
    while i < s.len() && is_word_char_of(s[i])
        invariant
            from <= i <= s.len(),
            forall|j: int| from <= j < i ==> is_word_char(s[j]),
        decreases s.len() - i,
    {
        i += 1;
    }
    proof {
        lemma_first_at(|i: int| !is_word_char(s@[i]), from as int, s.len() as int, i as int);
    }
    i
}

fn number_end(s: &Vec<char>, from: usize) -> (at: usize)
    requires
        from <= s.len(),
    ensures
        at == first_at(|i: int| !is_number_char(s@[i]), from as int, s.len() as int),
        from <= at <= s.len(),
{
    let mut i: usize = from;
    while i < s.len() && (is_word_char_of(s[i]) || s[i] == '#' || s[i] == '.')
        invariant
            from <= i <= s.len(),
            forall|j: int| from <= j < i ==> is_number_char(s[j]),
        decreases s.len() - i,
    {
        i += 1;
    }
    proof {
        lemma_first_at(|i: int| !is_number_char(s@[i]), from as int, s.len() as int, i as int);
    }
    i
}

fn find(s: &Vec<char>, c: char, from: usize) -> (at: usize)
    requires
        from <= s.len(),
    ensures
        at == char_place(s@, c, from as int),
        from <= at <= s.len(),
{
    find_char(s, c, from)
}

fn find_comment_close(s: &Vec<char>, from: usize) -> (at: usize)
    requires
        from <= s.len(),
    ensures
        at == comment_close(s@, from as int),
        from <= at <= s.len(),
        at < s.len() ==> at + 1 < s.len(),
{
    let mut i: usize = from;
    while i < s.len() && !(s[i] == '*' && i + 1 < s.len() && s[i + 1] == '/')
        invariant
            from <= i <= s.len(),
            forall|j: int|
                from <= j < i ==> !(#[trigger] s[j] == '*' && j + 1 < s.len() && s[j + 1] == '/'),
        decreases s.len() - i,
    {
        i += 1;
    }
    proof {
        lemma_first_at(
            |i: int| s@[i] == '*' && i + 1 < s@.len() && s@[i + 1] == '/',
            from as int,
            s.len() as int,
            i as int,
        );
    }
    i
}

fn lower_of(c: char) -> (r: char)
    ensures
        r == lower(c),
{
    if c >= 'A' && c <= 'Z' {
        ((c as u8) + 32) as char
    } else {
        c
    }
}

fn lowered_of(w: &Vec<char>) -> (r: Vec<char>)
    ensures
        r@ == lowered(w@),
{
    let mut r: Vec<char> = Vec::new();
    let mut i: usize = 0;
    while i < w.len()
        invariant
            i <= w.len(),
            r.len() == i,
            forall|j: int| 0 <= j < i ==> r[j] == lower(w[j]),
        decreases w.len() - i,
    {
        r.push(lower_of(w[i]));
        i += 1;
    }
    assert(r@ =~= lowered(w@));
    r
}

fn is_word(w: &Vec<char>, word: &str) -> (r: bool)
    ensures
        r == (w@ == word@),
{
    let other = chars_of(word);
    chars_eq(w, &other)
}

/// Whether `w` is one of `words`.
fn is_among(w: &Vec<char>, words: &Vec<&'static str>) -> (r: bool)
    ensures
        r == (exists|i: int| 0 <= i < words.len() && (#[trigger] words[i])@ == w@),
{
    let mut i: usize = 0;
    while i < words.len()
        invariant
            i <= words.len(),
            forall|j: int| 0 <= j < i ==> (#[trigger] words[j])@ != w@,
        decreases words.len() - i,
    {
        if is_word(w, words[i]) {
            return true;
        }
        i += 1;
    }
    false
}

fn declarations() -> (words: Vec<&'static str>)
    ensures
        words.len() == declaration_words().len(),
        forall|i: int| 0 <= i < words.len() ==> (#[trigger] words[i])@ == declaration_words()[i],
{
    vec!["signal", "variable", "constant", "file", "shared", "alias", "attribute", "type", "subtype"]
}

fn closers() -> (words: Vec<&'static str>)
    ensures
        words.len() == closer_words().len(),
        forall|i: int| 0 <= i < words.len() ==> (#[trigger] words[i])@ == closer_words()[i],
{
    vec![
        "process",
        "if",
        "case",
        "loop",
        "generate",
        "block",
        "record",
        "units",
        "protected",
        "postponed",
        "for",
    ]
}

fn others() -> (words: Vec<&'static str>)
    ensures
        words.len() == other_words().len(),
        forall|i: int| 0 <= i < words.len() ==> (#[trigger] words[i])@ == other_words()[i],
{
    vec![
        "abs",
        "access",
        "after",
        "all",
        "and",
        "array",
        "assert",
        "buffer",
        "bus",
        "context",
        "disconnect",
        "downto",
        "else",
        "elsif",
        "exit",
        "group",
        "guarded",
        "impure",
        "in",
        "inertial",
        "inout",
        "label",
        "library",
        "linkage",
        "literal",
        "map",
        "mod",
        "nand",
        "new",
        "next",
        "nor",
        "not",
        "null",
        "on",
        "open",
        "or",
        "others",
        "out",
        "pure",
        "range",
        "register",
        "reject",
        "rem",
        "report",
        "return",
        "rol",
        "ror",
        "select",
        "severity",
        "sla",
        "sll",
        "sra",
        "srl",
        "then",
        "to",
        "transport",
        "unaffected",
        "until",
        "use",
        "wait",
        "when",
        "while",
        "with",
        "xnor",
        "xor",
    ]
}

/// The reserved word that `w` is, in small letters.
fn keyword(w: &Vec<char>) -> (r: Option<Keyword>)
    ensures
        r == keyword_of(w@),
{
    if is_word(w, "entity") {
        return Some(Keyword::Entity);
    }
    if is_word(w, "architecture") {
        return Some(Keyword::Architecture);
    }
    if is_word(w, "package") {
        return Some(Keyword::Package);
    }
    if is_word(w, "configuration") {
        return Some(Keyword::Configuration);
    }
    if is_word(w, "component") {
        return Some(Keyword::Component);
    }
    if is_word(w, "is") {
        return Some(Keyword::Is);
    }
    if is_word(w, "of") {
        return Some(Keyword::Of);
    }
    if is_word(w, "end") {
        return Some(Keyword::End);
    }
    if is_word(w, "port") {
        return Some(Keyword::Port);
    }
    if is_word(w, "generic") {
        return Some(Keyword::Generic);
    }
    if is_word(w, "begin") {
        return Some(Keyword::Begin);
    }
    if is_word(w, "body") {
        return Some(Keyword::Body);
    }
    if is_word(w, "function") {
        return Some(Keyword::Function);
    }
    if is_word(w, "procedure") {
        return Some(Keyword::Procedure);
    }
    let d = declarations();
    let c = closers();
    let o = others();
    let in_d = is_among(w, &d);
    let in_c = is_among(w, &c);
    let in_o = is_among(w, &o);
    proof {
        if in_d {
            let i = choose|i: int| 0 <= i < d.len() && (#[trigger] d[i])@ == w@;
            assert(declaration_words()[i] == w@);
        } else if declaration_words().contains(w@) {
            let i = choose|i: int| 0 <= i < declaration_words().len() && declaration_words()[i] == w@;
            assert(d[i]@ == w@);
        }
        if in_c {
            let i = choose|i: int| 0 <= i < c.len() && (#[trigger] c[i])@ == w@;
            assert(closer_words()[i] == w@);
        } else if closer_words().contains(w@) {
            let i = choose|i: int| 0 <= i < closer_words().len() && closer_words()[i] == w@;
            assert(c[i]@ == w@);
        }
        if in_o {
            let i = choose|i: int| 0 <= i < o.len() && (#[trigger] o[i])@ == w@;
            assert(other_words()[i] == w@);
        } else if other_words().contains(w@) {
            let i = choose|i: int| 0 <= i < other_words().len() && other_words()[i] == w@;
            assert(o[i]@ == w@);
        }
    }
    if in_d {
        Some(Keyword::Declaration)
    } else if in_c {
        Some(Keyword::Closer)
    } else if in_o {
        Some(Keyword::Other)
    } else {
        None
    }
}

fn word_kind(w: &Vec<char>) -> (t: VhdlToken)
    ensures
        t@ == word_token(w@),
{
    match keyword(&lowered_of(w)) {
        Some(k) => VhdlToken::Keyword(k),
        None => VhdlToken::Identifier(string_of(w)),
    }
}

fn read_lexeme(s: &Vec<char>, a: usize) -> (r: (Result<VhdlToken, VhdlError>, usize))
    requires
        a < s.len(),
    ensures
        r.1 == lexeme_end(s@, a as int),
        a < r.1 <= s.len(),
        match r.0 {
            Ok(t) => lexeme_token(s@, a as int) == Ok::<TokenView, VhdlError>(t@),
            Err(e) => lexeme_token(s@, a as int) == Err::<TokenView, VhdlError>(e),
        },
{
    proof {
        lemma_lexeme_end(s@, a as int);
    }
    let c = s[a];
    let has_next = a + 1 < s.len();
    if c == '-' && has_next && s[a + 1] == '-' {
        let end = find(s, '\n', a + 2);
        (Ok(VhdlToken::Comment(string_of(&slice_chars(s, a + 2, end)))), end)
    } else if c == '/' && has_next && s[a + 1] == '*' {
        let close = find_comment_close(s, a + 2);
        if close < s.len() {
            (Ok(VhdlToken::Comment(string_of(&slice_chars(s, a + 2, close)))), close + 2)
        } else {
            (Err(VhdlError::UnclosedComment), s.len())
        }
    } else if c == '"' {
        let close = find(s, '"', a + 1);
        if close < s.len() {
            (Ok(VhdlToken::Literal(string_of(&slice_chars(s, a, close + 1)))), close + 1)
        } else {
            (Err(VhdlError::UnclosedString), s.len())
        }
    } else if c == '\\' {
        let close = find(s, '\\', a + 1);
        if close < s.len() {
            (Ok(VhdlToken::Identifier(string_of(&slice_chars(s, a, close + 1)))), close + 1)
        } else {
            (Err(VhdlError::UnclosedIdentifier), s.len())
        }
    } else if c == '\'' && s.len() - a > 2 && s[a + 2] == '\'' {
        (Ok(VhdlToken::Literal(string_of(&slice_chars(s, a, a + 3)))), a + 3)
    } else if (c >= 'a' && c <= 'z') || (c >= 'A' && c <= 'Z') {
        let end = word_end(s, a + 1);
        (Ok(word_kind(&slice_chars(s, a, end))), end)
    } else if c >= '0' && c <= '9' {
        let end = number_end(s, a + 1);
        (Ok(VhdlToken::Literal(string_of(&slice_chars(s, a, end)))), end)
    } else {
        (Ok(VhdlToken::Delimiter(c)), a + 1)
    }
}

/// Cuts the text `s` into its lexemes: a token with its place for each, or
/// what is wrong with it, and a token for the end of the text.
pub fn tokenize(s: &Vec<char>) -> (out: Vec<Result<Token, VhdlError>>)
    ensures
        all_lexed_view(out@) == lex(s@),
{
    let mut out: Vec<Result<Token, VhdlError>> = Vec::new();
    let mut i: usize = 0;
    let mut line: usize = 0;
    let mut start: usize = 0;
    assert(all_lexed_view(out@) + lex_from(s@, 0) =~= lex(s@));
    loop
        invariant
            i <= s.len(),
            line == line_of(s@, i as int),
            start == line_start(s@, i as int),
            start <= i,
            all_lexed_view(out@) + lex_from(s@, i as int) == lex(s@),
        decreases s.len() - i,
    {
        let a = skip_space(s, i);
        let (l, st) = advance(s, i, a, line, start);
        let ghost before = all_lexed_view(out@);
        if a >= s.len() {
            out.push(Ok(Token::new(VhdlToken::EOF, Position::place(l, a - st))));
            proof {
                assert(all_lexed_view(out@) =~= before + lex_from(s@, i as int));
            }
            return out;
        }
        let (token, end) = read_lexeme(s, a);
        let lexed = match token {
            Ok(t) => Ok(Token::new(t, Position::place(l, a - st))),
            Err(e) => Err(e),
        };
        out.push(lexed);
        let (l2, st2) = advance(s, a, end, l, st);
        proof {
            assert(lexed_view(lexed) == lexed_at(s@, a as int));
            assert(all_lexed_view(out@) =~= before.push(lexed_at(s@, a as int)));
            assert(before.push(lexed_at(s@, a as int)) + lex_from(s@, end as int) =~= before
                + lex_from(s@, i as int));
        }
        i = end;
        line = l2;
        start = st2;
    }
}

/// What succeeded and what failed first among the lexemes read is what
/// succeeded and what failed first among their values.
pub proof fn lemma_lexed_results(out: Seq<Result<Token, VhdlError>>)
    ensures
        placed_view(successes(out)) == successes(all_lexed_view(out)),
        first_failure(out) == first_failure(all_lexed_view(out)),
    decreases out.len(),
{
    if out.len() > 0 {
        lemma_lexed_results(out.drop_last());
        assert(all_lexed_view(out).drop_last() =~= all_lexed_view(out.drop_last()));
        assert(all_lexed_view(out).last() == lexed_view(out.last()));
        match out.last() {
            Ok(t) => {
                assert(placed_view(successes(out)) =~= placed_view(successes(out.drop_last())).push(
                    (t.spec_position(), t@),
                ));
            },
            Err(_) => {},
        }
    } else {
        assert(placed_view(successes(out)) =~= Seq::empty());
    }
}

/// The tokens of a source text.
#[derive(Debug, PartialEq, Eq)]
pub struct VhdlTokenizer {
    tokens: Vec<Token>,
}

impl VhdlTokenizer {
    /// The tokens with their places.
    pub closed spec fn view(&self) -> Seq<(Position, TokenView)> {
        placed_view(self.tokens@)
    }

    /// Cuts a source text into tokens and passes over the lexemes that are
    /// wrong.
    pub fn from_source_code(s: &str) -> (t: Self)
        ensures
            t@ == successes(lex(s@)),
    {
        let out = tokenize(&chars_of(s));
        proof {
            lemma_lexed_results(out@);
        }
        VhdlTokenizer { tokens: keep_successes(out) }
    }

    /// Cuts a source text into tokens; fails with what is wrong with the
    /// first lexeme that is wrong.
    pub fn from_str(s: &str) -> (r: Result<Self, VhdlError>)
        ensures
            match r {
                Ok(t) => first_failure(lex(s@)) is None && t@ == successes(lex(s@)),
                Err(e) => first_failure(lex(s@)) == Some(e),
            },
    {
        let out = tokenize(&chars_of(s));
        proof {
            lemma_lexed_results(out@);
        }
        match all_or_first_failure(out) {
            Ok(tokens) => Ok(VhdlTokenizer { tokens }),
            Err(e) => Err(e),
        }
    }

    /// The tokens.
    pub fn into_tokens(self) -> (tokens: Vec<Token>)
        ensures
            placed_view(tokens@) == self@,
    {
        self.tokens
    }
}

} // verus!
