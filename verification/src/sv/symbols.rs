//! The design units of a SystemVerilog source text: its modules, each with
//! the number of its ports and the names of the modules it instantiates.

use vstd::prelude::*;
use crate::lang::{
    all_of_language, copy_identifiers, names_of, names_view, placed_names, DesignUnit, Dialect,
    Identifier, NameView, Position, UnitRecord,
};
use crate::results::{all_or_first_failure, first_failure, keep_successes, successes};
use crate::scan::{first_at, lemma_first_at};
use crate::sv::token::{
    places_view, token_text, tokens_view, Keyword, Operator, SystemVerilogError,
    SystemVerilogToken, Token, TokenView,
};
use crate::text::{append_str, string_of};
use crate::sv::tokenizer::{lex, placed_view, SystemVerilogTokenizer};

verus! {

/// The tokens of a statement.
pub type Statement = Vec<Token>;

/// The texts of the tokens of `stmt` up to `upto`, each with a blank behind
/// it.
pub open spec fn statement_text(stmt: Seq<TokenView>, upto: int) -> Seq<char>
    decreases upto,
{
    if upto <= 0 {
        Seq::empty()
    } else {
        statement_text(stmt, upto - 1) + token_text(stmt[upto - 1]) + seq![' ']
    }
}

/// The statement as one line of text: its tokens with blanks behind
/// them.
pub fn statement_to_string(stmt: &Statement) -> (s: String)
    ensures
        s@ == statement_text(tokens_view(stmt@), stmt.len() as int),
{
    let ghost toks = tokens_view(stmt@);
    let mut text: Vec<char> = Vec::new();
    let mut i: usize = 0;
    while i < stmt.len()
        invariant
            i <= stmt.len(),
            toks == tokens_view(stmt@),
            text@ == statement_text(toks, i as int),
        decreases stmt.len() - i,
    {
        assert(toks[i as int] == stmt[i as int]@);
        let ghost before = text@;
        append_str(&mut text, stmt[i].as_type().to_string().as_str());
        text.push(' ');
        assert(text@ =~= before + token_text(toks[i as int]) + seq![' ']);
        i += 1;
    }
    string_of(&text)
}

/// The tokens of `stmt` without their places.
pub fn into_tokens(stmt: Statement) -> (tokens: Vec<SystemVerilogToken>)
    ensures
        tokens.len() == stmt.len(),
        forall|i: int| 0 <= i < tokens.len() ==> (#[trigger] tokens[i])@ == stmt[i]@,
{
    let mut tokens: Vec<SystemVerilogToken> = Vec::new();
    for t in it: stmt.into_iter()
        invariant
            it.seq() == stmt@,
            tokens.len() == it.index(),
            forall|i: int| 0 <= i < tokens.len() ==> (#[trigger] tokens[i])@ == stmt[i]@,
    {
        tokens.push(t.take());
    }
    tokens
}

/// A module.
#[derive(Debug, PartialEq, Eq)]
pub struct Module {
    name: Identifier,
    position: Position,
    ports: usize,
    refs: Vec<Identifier>,
}

/// The mathematical value of a `Module`: its name and the names of the
/// modules it instantiates, each with its language and the place where it
/// was read, the place where the module starts, and the number of ports.
pub struct ModuleView {
    pub name: NameView,
    pub position: Position,
    pub ports: nat,
    pub refs: Seq<NameView>,
}

impl Module {
    /// The mathematical value.
    pub closed spec fn view(&self) -> ModuleView {
        ModuleView {
            name: self.name.placed(),
            position: self.position,
            ports: self.ports as nat,
            refs: placed_names(self.refs@),
        }
    }

    /// The module's name.
    pub fn get_name(&self) -> (name: &Identifier)
        ensures
            name.placed() == self@.name,
    {
        &self.name
    }

    /// Where the module starts.
    pub fn get_position(&self) -> (position: &Position)
        ensures
            *position == self@.position,
    {
        &self.position
    }

    /// The number of the module's ports.
    pub fn get_ports(&self) -> (ports: usize)
        ensures
            ports == self@.ports,
    {
        self.ports
    }

    /// The names of the modules that the module instantiates, each once,
    /// in the order of their first instantiation.
    pub fn get_refs(&self) -> (refs: &Vec<Identifier>)
        ensures
            placed_names(refs@) == self@.refs,
    {
        &self.refs
    }
}

/// A design unit of SystemVerilog.
#[derive(Debug, PartialEq, Eq)]
pub enum SystemVerilogSymbol {
    Module(Module),
}

/// The mathematical value of a `SystemVerilogSymbol`.
pub enum SymbolView {
    Module(ModuleView),
}

impl SystemVerilogSymbol {
    /// The mathematical value.
    pub open spec fn view(&self) -> SymbolView {
        match self {
            SystemVerilogSymbol::Module(m) => SymbolView::Module(m@),
        }
    }

    /// The unit's name.
    pub fn as_name(&self) -> (name: Option<&Identifier>)
        ensures
            name matches Some(id) && id.placed() == self@->Module_0.name,
    {
        match self {
            SystemVerilogSymbol::Module(m) => Some(m.get_name()),
        }
    }

    /// Where the unit starts.
    pub fn get_position(&self) -> (position: &Position)
        ensures
            *position == self@->Module_0.position,
    {
        match self {
            SystemVerilogSymbol::Module(m) => m.get_position(),
        }
    }

    /// The module, if the unit is one.
    pub fn as_module(&self) -> (module: Option<&Module>)
        ensures
            module matches Some(m) && SymbolView::Module(m@) == self@,
    {
        match self {
            SystemVerilogSymbol::Module(m) => Some(m),
        }
    }

    /// The names of the units that the unit instantiates.
    pub fn get_refs(&self) -> (refs: &Vec<Identifier>)
        ensures
            placed_names(refs@) == self@->Module_0.refs,
    {
        match self {
            SystemVerilogSymbol::Module(m) => m.get_refs(),
        }
    }

    /// The unit as the planner reads it: a module with the same names, in
    /// the same language and from the same places, and as many ports.
    pub fn to_unit(&self) -> (unit: DesignUnit)
        ensures
            unit.record() == (UnitRecord::Module {
                name: self@->Module_0.name,
                ports: self@->Module_0.ports,
                edges: self@->Module_0.refs,
            }),
    {
        match self {
            SystemVerilogSymbol::Module(m) => {
                let edges = copy_identifiers(&m.refs);
                DesignUnit::Module { name: m.name.clone(), ports: m.ports, edges }
            },
        }
    }
}

/// What is read of a source text: a unit, or what is wrong with one.
pub type Parsed = Result<SymbolView, SystemVerilogError>;

/// The place of the token that ends the attribute opened before `from`:
/// the first `*)` or the end of the text, or the number of tokens.
pub open spec fn attr_close(toks: Seq<TokenView>, from: int) -> int {
    first_at(
        |i: int| toks[i] == TokenView::Operator(Operator::AttrR) || toks[i] is EOF,
        from,
        toks.len() as int,
    )
}

/// What is wrong with the attribute opened before `from`, if anything: the
/// text ends before a `*)`.
pub open spec fn attr_failure(toks: Seq<TokenView>, from: int) -> Option<SystemVerilogError> {
    let close = attr_close(toks, from);
    if close < toks.len() && toks[close] is EOF {
        Some(SystemVerilogError::ExpectingOperator(Operator::AttrR))
    } else {
        None
    }
}

/// The place behind the attribute opened before `from`.
pub open spec fn attr_end(toks: Seq<TokenView>, from: int) -> int {
    let close = attr_close(toks, from);
    if close < toks.len() {
        close + 1
    } else {
        toks.len() as int
    }
}

/// The place of the name of the module whose reserved word stands before
/// `from`: the first token that is no other reserved word.
pub open spec fn name_place(toks: Seq<TokenView>, from: int) -> int {
    first_at(|i: int| !(toks[i] is Reserved), from, toks.len() as int)
}

/// Whether the token ends a module or the text.
pub open spec fn is_module_end(t: TokenView) -> bool {
    t == TokenView::Keyword(Keyword::Endmodule) || t is EOF
}

/// The place where the header of a module ends: the first `;` at or after
/// `from`, or the end of the module.
pub open spec fn header_end(toks: Seq<TokenView>, from: int) -> int {
    first_at(
        |i: int| toks[i] == TokenView::Operator(Operator::Semicolon) || is_module_end(toks[i]),
        from,
        toks.len() as int,
    )
}

/// The place where a module ends: the first `endmodule` at or after `from`
/// or the end of the text.
pub open spec fn module_end(toks: Seq<TokenView>, from: int) -> int {
    first_at(|i: int| is_module_end(toks[i]), from, toks.len() as int)
}

/// The place of the `)` that closes the parenthesis which is `depth` deep
/// at `at`, before `end`; `end` when it is not closed.
pub open spec fn close_place(toks: Seq<TokenView>, at: int, end: int, depth: nat) -> int
    decreases end - at,
{
    if at >= end {
        end
    } else if toks[at] == TokenView::Operator(Operator::ParenL) {
        close_place(toks, at + 1, end, depth + 1)
    } else if toks[at] == TokenView::Operator(Operator::ParenR) {
        if depth <= 1 {
            at
        } else {
            close_place(toks, at + 1, end, (depth - 1) as nat)
        }
    } else {
        close_place(toks, at + 1, end, depth)
    }
}

/// `count` and the number of commas from `at` to `end` that stand one
/// parenthesis deep, where `at` is `depth` deep.
pub open spec fn commas(toks: Seq<TokenView>, at: int, end: int, depth: nat, count: nat) -> nat
    decreases end - at,
{
    if at >= end {
        count
    } else if toks[at] == TokenView::Operator(Operator::ParenL) {
        commas(toks, at + 1, end, depth + 1, count)
    } else if toks[at] == TokenView::Operator(Operator::ParenR) {
        commas(toks, at + 1, end, if depth > 0 {
            (depth - 1) as nat
        } else {
            0
        }, count)
    } else if toks[at] == TokenView::Operator(Operator::Comma) && depth == 1 {
        commas(toks, at + 1, end, depth, count + 1)
    } else {
        commas(toks, at + 1, end, depth, count)
    }
}

/// The place of the `(` that opens the list of ports in the header from
/// `from` to `end`: behind the parameters, if `#(` opens some, the first
/// `(`. `end` when there is none.
pub open spec fn ports_open(toks: Seq<TokenView>, from: int, end: int) -> int {
    let after = if from + 1 < end && toks[from] == TokenView::Operator(Operator::Pound) && toks[from
        + 1] == TokenView::Operator(Operator::ParenL) {
        let close = close_place(toks, from + 2, end, 1);
        if close < end {
            close + 1
        } else {
            end
        }
    } else {
        from
    };
    first_at(|i: int| toks[i] == TokenView::Operator(Operator::ParenL), after, end)
}

/// The number of ports in the header from `from` to `end`: none without a
/// list or with an empty one, else one more than the commas of the list.
pub open spec fn ports_in(toks: Seq<TokenView>, from: int, end: int) -> nat {
    let open = ports_open(toks, from, end);
    if open >= end {
        0
    } else {
        let close = close_place(toks, open + 1, end, 1);
        if close <= open + 1 {
            0
        } else {
            commas(toks, open + 1, close, 1, 1)
        }
    }
}

/// Whether a module is instantiated at `k`: a name at the start of a
/// statement, followed by another name and `(`, or by `#`.
pub open spec fn is_instance(toks: Seq<TokenView>, k: int) -> bool {
    &&& 0 < k < toks.len()
    &&& toks[k] is Identifier
    &&& (toks[k - 1] == TokenView::Operator(Operator::Semicolon) || toks[k - 1] is Keyword
        || toks[k - 1] is Reserved)
    &&& ((k + 2 < toks.len() && toks[k + 1] is Identifier && toks[k + 2] == TokenView::Operator(
        Operator::ParenL,
    )) || (k + 1 < toks.len() && toks[k + 1] == TokenView::Operator(Operator::Pound)))
}

/// The name that the token at `at` spells, as a name of SystemVerilog read
/// at the token's place.
pub open spec fn name_at(toks: Seq<TokenView>, places: Seq<Position>, at: int) -> NameView {
    NameView {
        name: toks[at]->Identifier_0,
        dialect: Dialect::SystemVerilog,
        position: places[at],
    }
}

/// The names of the modules instantiated from `from` up to `upto`, each
/// once, where it is first instantiated, in the order of their first
/// instantiation.
pub open spec fn refs_upto(toks: Seq<TokenView>, places: Seq<Position>, from: int, upto: int) -> Seq<
    NameView,
>
    decreases upto - from,
{
    if upto <= from {
        Seq::empty()
    } else {
        let before = refs_upto(toks, places, from, upto - 1);
        if is_instance(toks, upto - 1) && !names_of(before).contains(
            toks[upto - 1]->Identifier_0,
        ) {
            before.push(name_at(toks, places, upto - 1))
        } else {
            before
        }
    }
}

/// The module whose reserved word stands at `position` before `from`, or
/// what is wrong with it: its name has to follow, and `endmodule` has to
/// close it.
pub open spec fn module_at(
    toks: Seq<TokenView>,
    places: Seq<Position>,
    position: Position,
    from: int,
) -> Parsed {
    let n = name_place(toks, from);
    if n >= toks.len() || !(toks[n] is Identifier) {
        Err(SystemVerilogError::ExpectingIdentifier)
    } else {
        let h = header_end(toks, n + 1);
        let e = module_end(toks, h);
        if e >= toks.len() || toks[e] is EOF {
            Err(SystemVerilogError::ExpectingKeyword(Keyword::Endmodule))
        } else {
            Ok(
                SymbolView::Module(
                    ModuleView {
                        name: name_at(toks, places, n),
                        position,
                        ports: ports_in(toks, n + 1, h),
                        refs: refs_upto(toks, places, h, e),
                    },
                ),
            )
        }
    }
}

/// The place behind the module whose reserved word stands before `from`:
/// behind its `endmodule`; where the module is wrong, the place where that
/// showed.
pub open spec fn module_next(toks: Seq<TokenView>, from: int) -> int {
    let n = name_place(toks, from);
    if n >= toks.len() || !(toks[n] is Identifier) {
        n
    } else {
        let e = module_end(toks, header_end(toks, n + 1));
        if e >= toks.len() || toks[e] is EOF {
            e
        } else {
            e + 1
        }
    }
}

/// What the tokens from `at` on hold: attributes are passed over, a module
/// follows each `module` and `macromodule`, and everything else between
/// them is passed over.
pub open spec fn parse_from(toks: Seq<TokenView>, places: Seq<Position>, at: int) -> Seq<Parsed>
    decreases toks.len() - at,
{
    if at < 0 || at >= toks.len() {
        Seq::empty()
    } else if toks[at] == TokenView::Operator(Operator::AttrL) {
        let next = attr_end(toks, at + 1);
        let rest = if at < next <= toks.len() {
            parse_from(toks, places, next)
        } else {
            Seq::empty()
        };
        match attr_failure(toks, at + 1) {
            Some(e) => seq![Err(e)] + rest,
            None => rest,
        }
    } else if toks[at] == TokenView::Keyword(Keyword::Module) || toks[at] == TokenView::Keyword(
        Keyword::Macromodule,
    ) {
        let next = module_next(toks, at + 1);
        let rest = if at < next <= toks.len() {
            parse_from(toks, places, next)
        } else {
            Seq::empty()
        };
        seq![module_at(toks, places, places[at], at + 1)] + rest
    } else {
        parse_from(toks, places, at + 1)
    }
}

/// Every name that is read of an instantiation is a name of
/// SystemVerilog.
pub proof fn lemma_refs_are_systemverilog(
    toks: Seq<TokenView>,
    places: Seq<Position>,
    from: int,
    upto: int,
)
    ensures
        all_of_language(refs_upto(toks, places, from, upto), Dialect::SystemVerilog),
    decreases upto - from,
{
    if upto > from {
        lemma_refs_are_systemverilog(toks, places, from, upto - 1);
    }
}

/// Every module that is read is a module of SystemVerilog: its name and
/// the names of the modules it instantiates are names of SystemVerilog.
pub proof fn lemma_modules_are_systemverilog(
    toks: Seq<TokenView>,
    places: Seq<Position>,
    at: int,
)
    ensures
        forall|k: int|
            0 <= k < parse_from(toks, places, at).len() ==> (#[trigger] parse_from(
                toks,
                places,
                at,
            )[k] matches Ok(SymbolView::Module(m)) ==> m.name.dialect == Dialect::SystemVerilog
                && all_of_language(m.refs, Dialect::SystemVerilog)),
    decreases toks.len() - at,
{
    if 0 <= at < toks.len() {
        if toks[at] == TokenView::Operator(Operator::AttrL) {
            let next = attr_end(toks, at + 1);
            if at < next <= toks.len() {
                lemma_modules_are_systemverilog(toks, places, next);
            }
        } else if toks[at] == TokenView::Keyword(Keyword::Module) || toks[at]
            == TokenView::Keyword(Keyword::Macromodule) {
            let next = module_next(toks, at + 1);
            if at < next <= toks.len() {
                lemma_modules_are_systemverilog(toks, places, next);
            }
            let n = name_place(toks, at + 1);
            let h = header_end(toks, n + 1);
            lemma_refs_are_systemverilog(toks, places, h, module_end(toks, h));
        } else {
            lemma_modules_are_systemverilog(toks, places, at + 1);
        }
    }
}

/// The values of what the parser hands back.
pub open spec fn parsed_view(out: Seq<Result<SystemVerilogSymbol, SystemVerilogError>>) -> Seq<
    Parsed,
> {
    Seq::new(
        out.len(),
        |i: int|
            match out[i] {
                Ok(s) => Ok(s@),
                Err(e) => Err(e),
            },
    )
}

/// The values of `symbols`.
pub open spec fn symbols_view(symbols: Seq<SystemVerilogSymbol>) -> Seq<SymbolView> {
    Seq::new(symbols.len(), |i: int| symbols[i]@)
}

/// The tokens of `placed` without their places.
pub open spec fn kinds(placed: Seq<(Position, TokenView)>) -> Seq<TokenView> {
    Seq::new(placed.len(), |i: int| placed[i].1)
}

/// The places of the tokens of `placed`.
pub open spec fn places(placed: Seq<(Position, TokenView)>) -> Seq<Position> {
    Seq::new(placed.len(), |i: int| placed[i].0)
}

/// The tokens of `placed` that are no comments.
pub open spec fn without_comments(placed: Seq<(Position, TokenView)>) -> Seq<(Position, TokenView)>
    decreases placed.len(),
{
    if placed.len() == 0 {
        Seq::empty()
    } else if placed.last().1 is Comment {
        without_comments(placed.drop_last())
    } else {
        without_comments(placed.drop_last()).push(placed.last())
    }
}

fn is_end_of_module(t: &SystemVerilogToken) -> (r: bool)
    ensures
        r == is_module_end(t@),
{
    t.check_keyword(&Keyword::Endmodule) || t.is_eof()
}

fn is_paren_l(t: &SystemVerilogToken) -> (r: bool)
    ensures
        r == (t@ == TokenView::Operator(Operator::ParenL)),
{
    t.check_delimiter(&Operator::ParenL)
}

fn is_paren_r(t: &SystemVerilogToken) -> (r: bool)
    ensures
        r == (t@ == TokenView::Operator(Operator::ParenR)),
{
    t.check_delimiter(&Operator::ParenR)
}

fn is_reserved(t: &SystemVerilogToken) -> (r: bool)
    ensures
        r == (t@ is Reserved),
{
    match t {
        SystemVerilogToken::Reserved(_) => true,
        _ => false,
    }
}

/// The place of the `)` that closes the parenthesis opened before `from`.
fn find_close(tokens: &Vec<Token>, from: usize, end: usize) -> (at: usize)
    requires
        0 < from <= end <= tokens.len(),
    ensures
        at == close_place(tokens_view(tokens@), from as int, end as int, 1),
        from <= at <= end,
{
    let ghost toks = tokens_view(tokens@);
    let mut i: usize = from;
    let mut depth: usize = 1;
    while i < end
        invariant
            0 < from <= i <= end <= tokens.len(),
            toks == tokens_view(tokens@),
            1 <= depth <= i - from + 1,
            close_place(toks, from as int, end as int, 1) == close_place(
                toks,
                i as int,
                end as int,
                depth as nat,
            ),
        decreases end - i,
    {
        let t = tokens[i].as_type();
        assert(toks[i as int] == t@);
        if is_paren_l(t) {
            depth += 1;
        } else if is_paren_r(t) {
            if depth <= 1 {
                return i;
            }
            depth -= 1;
        }
        i += 1;
    }
    end
}

/// One more than the number of commas from `from` to `end` that stand one
/// parenthesis deep.
fn count_ports(tokens: &Vec<Token>, from: usize, end: usize) -> (n: usize)
    requires
        0 < from <= end <= tokens.len(),
    ensures
        n == commas(tokens_view(tokens@), from as int, end as int, 1, 1),
{
    let ghost toks = tokens_view(tokens@);
    let mut i: usize = from;
    let mut depth: usize = 1;
    let mut count: usize = 1;
    while i < end
        invariant
            0 < from <= i <= end <= tokens.len(),
            toks == tokens_view(tokens@),
            depth <= i - from + 1,
            1 <= count <= i - from + 1,
            commas(toks, from as int, end as int, 1, 1) == commas(
                toks,
                i as int,
                end as int,
                depth as nat,
                count as nat,
            ),
        decreases end - i,
    {
        let t = tokens[i].as_type();
        assert(toks[i as int] == t@);
        if is_paren_l(t) {
            depth += 1;
        } else if is_paren_r(t) {
            if depth > 0 {
                depth -= 1;
            }
        } else if t.check_delimiter(&Operator::Comma) && depth == 1 {
            count += 1;
        }
        i += 1;
    }
    count
}

/// The number of ports in the header from `from` to `end`.
fn read_ports(tokens: &Vec<Token>, from: usize, end: usize) -> (n: usize)
    requires
        from <= end <= tokens.len(),
    ensures
        n == ports_in(tokens_view(tokens@), from as int, end as int),
{
    let ghost toks = tokens_view(tokens@);
    let mut after = from;
    if end - from > 1 {
        assert(toks[from as int] == tokens[from as int]@);
        assert(toks[from + 1] == tokens[from + 1]@);
        if tokens[from].as_type().check_delimiter(&Operator::Pound) && is_paren_l(
            tokens[from + 1].as_type(),
        ) {
            let close = find_close(tokens, from + 2, end);
            after = if close < end {
                close + 1
            } else {
                end
            };
        }
    }
    let mut open: usize = after;
    while open < end && !is_paren_l(tokens[open].as_type())
        invariant
            after <= open <= end <= tokens.len(),
            toks == tokens_view(tokens@),
            forall|j: int|
                after <= j < open ==> toks[j] != TokenView::Operator(Operator::ParenL),
        decreases end - open,
    {
        assert(toks[open as int] == tokens[open as int]@);
        open += 1;
    }
    proof {
        if open < end {
            assert(toks[open as int] == tokens[open as int]@);
        }
        lemma_first_at(
            |i: int| toks[i] == TokenView::Operator(Operator::ParenL),
            after as int,
            end as int,
            open as int,
        );
    }
    if open >= end {
        return 0;
    }
    let close = find_close(tokens, open + 1, end);
    if close <= open + 1 {
        0
    } else {
        count_ports(tokens, open + 1, close)
    }
}

/// Whether `refs` holds the name `name`.
fn holds_name(refs: &Vec<Identifier>, name: &String) -> (r: bool)
    ensures
        r == names_view(refs@).contains(name@),
{
    let mut i: usize = 0;
    while i < refs.len()
        invariant
            i <= refs.len(),
            forall|j: int| 0 <= j < i ==> names_view(refs@)[j] != name@,
        decreases refs.len() - i,
    {
        let other = refs[i].to_string();
        if other == *name {
            assert(names_view(refs@)[i as int] == name@);
            return true;
        }
        i += 1;
    }
    false
}

/// Whether a module is instantiated at `k`.
fn check_instance(tokens: &Vec<Token>, k: usize) -> (r: bool)
    requires
        k < tokens.len(),
    ensures
        r == is_instance(tokens_view(tokens@), k as int),
{
    let ghost toks = tokens_view(tokens@);
    if k == 0 {
        return false;
    }
    assert(toks[k as int] == tokens[k as int]@);
    assert(toks[k - 1] == tokens[k - 1]@);
    if tokens[k].as_type().as_identifier().is_none() {
        return false;
    }
    let before = tokens[k - 1].as_type();
    if !(before.check_delimiter(&Operator::Semicolon) || before.is_keyword()) {
        return false;
    }
    proof {
        if k + 1 < tokens.len() {
            assert(toks[k + 1] == tokens[k + 1]@);
        }
        if k + 2 < tokens.len() {
            assert(toks[k + 2] == tokens[k + 2]@);
        }
    }
    let named = tokens.len() - k > 2 && tokens[k + 1].as_type().as_identifier().is_some()
        && is_paren_l(tokens[k + 2].as_type());
    let with_parameters = tokens.len() - k > 1 && tokens[k + 1].as_type().check_delimiter(
        &Operator::Pound,
    );
    named || with_parameters
}

/// The names of the modules instantiated from `from` up to `end`.
fn read_refs(tokens: &Vec<Token>, from: usize, end: usize) -> (refs: Vec<Identifier>)
    requires
        from <= end <= tokens.len(),
    ensures
        placed_names(refs@) == refs_upto(
            tokens_view(tokens@),
            places_view(tokens@),
            from as int,
            end as int,
        ),
{
    let ghost toks = tokens_view(tokens@);
    let ghost plcs = places_view(tokens@);
    let mut refs: Vec<Identifier> = Vec::new();
    let mut k: usize = from;
    assert(placed_names(refs@) =~= Seq::empty());
    while k < end
        invariant
            from <= k <= end <= tokens.len(),
            toks == tokens_view(tokens@),
            plcs == places_view(tokens@),
            placed_names(refs@) == refs_upto(toks, plcs, from as int, k as int),
        decreases end - k,
    {
        assert(names_of(placed_names(refs@)) =~= names_view(refs@));
        if check_instance(tokens, k) {
            assert(toks[k as int] == tokens[k as int]@);
            assert(plcs[k as int] == tokens[k as int].spec_position());
            match tokens[k].as_type().as_identifier() {
                Some(name) => {
                    if !holds_name(&refs, name) {
                        let ghost before = placed_names(refs@);
                        refs.push(
                            Identifier::at(name.clone(), Dialect::SystemVerilog, *tokens[k].locate()),
                        );
                        assert(placed_names(refs@) =~= before.push(name_at(toks, plcs, k as int)));
                    }
                },
                None => {},
            }
        }
        k += 1;
    }
    refs
}

/// Reads the attribute opened before `from`: what is wrong with it, if
/// anything, and the place behind it.
pub fn parse_attr(tokens: &Vec<Token>, from: usize) -> (r: (Option<SystemVerilogError>, usize))
    requires
        from <= tokens.len(),
    ensures
        r.0 == attr_failure(tokens_view(tokens@), from as int),
        r.1 == attr_end(tokens_view(tokens@), from as int),
        from <= r.1 <= tokens.len(),
{
    let ghost toks = tokens_view(tokens@);
    let mut i: usize = from;
    while i < tokens.len() && !(tokens[i].as_type().check_delimiter(&Operator::AttrR)
        || tokens[i].as_type().is_eof())
        invariant
            from <= i <= tokens.len(),
            toks == tokens_view(tokens@),
            forall|j: int|
                from <= j < i ==> !(toks[j] == TokenView::Operator(Operator::AttrR)
                    || toks[j] is EOF),
        decreases tokens.len() - i,
    {
        assert(toks[i as int] == tokens[i as int]@);
        i += 1;
    }
    proof {
        if i < tokens.len() {
            assert(toks[i as int] == tokens[i as int]@);
        }
        lemma_first_at(
            |i: int| toks[i] == TokenView::Operator(Operator::AttrR) || toks[i] is EOF,
            from as int,
            tokens.len() as int,
            i as int,
        );
    }
    if i < tokens.len() {
        if tokens[i].as_type().is_eof() {
            (Some(SystemVerilogError::ExpectingOperator(Operator::AttrR)), i + 1)
        } else {
            (None, i + 1)
        }
    } else {
        (None, i)
    }
}

/// Reads the module whose reserved word stands at `pos` before `from`: the
/// module or what is wrong with it, and the place behind it.
pub fn parse_module(tokens: &Vec<Token>, from: usize, pos: Position) -> (r: (
    Result<SystemVerilogSymbol, SystemVerilogError>,
    usize,
))
    requires
        from <= tokens.len(),
    ensures
        match r.0 {
            Ok(symbol) => module_at(
                tokens_view(tokens@),
                places_view(tokens@),
                pos,
                from as int,
            ) == Ok::<SymbolView, SystemVerilogError>(symbol@),
            Err(e) => module_at(tokens_view(tokens@), places_view(tokens@), pos, from as int)
                == Err::<SymbolView, SystemVerilogError>(e),
        },
        r.1 == module_next(tokens_view(tokens@), from as int),
        from <= r.1 <= tokens.len(),
{
    let ghost toks = tokens_view(tokens@);
    let mut n: usize = from;
    while n < tokens.len() && is_reserved(tokens[n].as_type())
        invariant
            from <= n <= tokens.len(),
            toks == tokens_view(tokens@),
            forall|j: int| from <= j < n ==> toks[j] is Reserved,
        decreases tokens.len() - n,
    {
        assert(toks[n as int] == tokens[n as int]@);
        n += 1;
    }
    proof {
        if n < tokens.len() {
            assert(toks[n as int] == tokens[n as int]@);
        }
        lemma_first_at(
            |i: int| !(toks[i] is Reserved),
            from as int,
            tokens.len() as int,
            n as int,
        );
    }
    if n >= tokens.len() {
        return (Err(SystemVerilogError::ExpectingIdentifier), n);
    }
    assert(places_view(tokens@)[n as int] == tokens[n as int].spec_position());
    let name = match tokens[n].as_type().as_identifier() {
        Some(name) => Identifier::at(name.clone(), Dialect::SystemVerilog, *tokens[n].locate()),
        None => {
            return (Err(SystemVerilogError::ExpectingIdentifier), n);
        },
    };
    let mut h: usize = n + 1;
    while h < tokens.len() && !(tokens[h].as_type().check_delimiter(&Operator::Semicolon)
        || is_end_of_module(tokens[h].as_type()))
        invariant
            n + 1 <= h <= tokens.len(),
            toks == tokens_view(tokens@),
            forall|j: int|
                n + 1 <= j < h ==> !(toks[j] == TokenView::Operator(Operator::Semicolon)
                    || is_module_end(toks[j])),
        decreases tokens.len() - h,
    {
        assert(toks[h as int] == tokens[h as int]@);
        h += 1;
    }
    proof {
        if h < tokens.len() {
            assert(toks[h as int] == tokens[h as int]@);
        }
        lemma_first_at(
            |i: int| toks[i] == TokenView::Operator(Operator::Semicolon) || is_module_end(toks[i]),
            n + 1,
            tokens.len() as int,
            h as int,
        );
    }
    let mut e: usize = h;
    while e < tokens.len() && !is_end_of_module(tokens[e].as_type())
        invariant
            h <= e <= tokens.len(),
            toks == tokens_view(tokens@),
            forall|j: int| h <= j < e ==> !is_module_end(toks[j]),
        decreases tokens.len() - e,
    {
        assert(toks[e as int] == tokens[e as int]@);
        e += 1;
    }
    proof {
        if e < tokens.len() {
            assert(toks[e as int] == tokens[e as int]@);
        }
        lemma_first_at(
            |i: int| is_module_end(toks[i]),
            h as int,
            tokens.len() as int,
            e as int,
        );
    }
    if e >= tokens.len() || tokens[e].as_type().is_eof() {
        return (Err(SystemVerilogError::ExpectingKeyword(Keyword::Endmodule)), e);
    }
    let ports = read_ports(tokens, n + 1, h);
    let refs = read_refs(tokens, h, e);
    (Ok(SystemVerilogSymbol::Module(Module { name, position: pos, ports, refs })), e + 1)
}

/// The tokens that are no comments.
fn drop_comments(all: Vec<Token>) -> (tokens: Vec<Token>)
    ensures
        placed_view(tokens@) == without_comments(placed_view(all@)),
{
    let ghost given = placed_view(all@);
    let mut tokens: Vec<Token> = Vec::new();
    assert(given.take(0) =~= Seq::empty());
    assert(placed_view(tokens@) =~= Seq::empty());
    for t in it: all.into_iter()
        invariant
            it.seq() == all@,
            given == placed_view(all@),
            placed_view(tokens@) == without_comments(given.take(it.index() as int)),
    {
        proof {
            let next = given.take(it.index() + 1);
            assert(next.drop_last() =~= given.take(it.index() as int));
            assert(next.last() == (t.spec_position(), t@));
        }
        if !t.as_type().is_comment() {
            let ghost before = placed_view(tokens@);
            tokens.push(t);
            assert(placed_view(tokens@) =~= before.push((t.spec_position(), t@)));
        }
    }
    proof {
        assert(given.take(all@.len() as int) =~= given);
    }
    tokens
}

/// The design units of a source text.
#[derive(Debug, PartialEq, Eq)]
pub struct SystemVerilogParser {
    symbols: Vec<SystemVerilogSymbol>,
}

impl SystemVerilogParser {
    /// The units.
    pub closed spec fn view(&self) -> Seq<SymbolView> {
        symbols_view(self.symbols@)
    }

    /// Reads the units that the tokens hold: for each a unit or what is
    /// wrong with it.
    pub fn parse(tokens: Vec<Token>) -> (out: Vec<Result<SystemVerilogSymbol, SystemVerilogError>>)
        ensures
            parsed_view(out@) == parse_from(tokens_view(tokens@), places_view(tokens@), 0),
    {
        let ghost toks = tokens_view(tokens@);
        let ghost plcs = places_view(tokens@);
        let mut out: Vec<Result<SystemVerilogSymbol, SystemVerilogError>> = Vec::new();
        let mut i: usize = 0;
        assert(parsed_view(out@) + parse_from(toks, plcs, 0) =~= parse_from(toks, plcs, 0));
        while i < tokens.len()
            invariant
                i <= tokens.len(),
                toks == tokens_view(tokens@),
                plcs == places_view(tokens@),
                parsed_view(out@) + parse_from(toks, plcs, i as int) == parse_from(toks, plcs, 0),
            decreases tokens.len() - i,
        {
            let t = &tokens[i];
            let ghost before = parsed_view(out@);
            assert(toks[i as int] == t@);
            assert(plcs[i as int] == t.spec_position());
            if t.as_type().check_delimiter(&Operator::AttrL) {
                let (failure, next) = parse_attr(&tokens, i + 1);
                match failure {
                    Some(e) => {
                        out.push(Err(e));
                        proof {
                            assert(parsed_view(out@) =~= before.push(Err(e)));
                            assert(before.push(Err(e)) + parse_from(toks, plcs, next as int)
                                =~= before + parse_from(toks, plcs, i as int));
                        }
                    },
                    None => {},
                }
                i = next;
            } else if t.as_type().check_keyword(&Keyword::Module) || t.as_type().check_keyword(
                &Keyword::Macromodule,
            ) {
                let (module, next) = parse_module(&tokens, i + 1, *t.locate());
                let ghost m = module_at(toks, plcs, plcs[i as int], i + 1);
                out.push(module);
                proof {
                    assert(parsed_view(out@) =~= before.push(m));
                    assert(before.push(m) + parse_from(toks, plcs, next as int) =~= before
                        + parse_from(toks, plcs, i as int));
                }
                i = next;
            } else {
                i += 1;
            }
        }
        proof {
            assert(parsed_view(out@) + parse_from(toks, plcs, tokens.len() as int) =~= parsed_view(
                out@,
            ));
        }
        out
    }

    /// Reads the units of a source text without its comments and passes
    /// over everything that is wrong.
    pub fn read_lazy(s: &str) -> (p: Self)
        ensures
            p@ == successes(
                parse_from(
                    kinds(without_comments(successes(lex(s@)))),
                    places(without_comments(successes(lex(s@)))),
                    0,
                ),
            ),
    {
        let tokens = drop_comments(SystemVerilogTokenizer::from_source_code(s).into_tokens());
        proof {
            assert(tokens_view(tokens@) =~= kinds(placed_view(tokens@)));
            assert(places_view(tokens@) =~= places(placed_view(tokens@)));
        }
        let out = SystemVerilogParser::parse(tokens);
        proof {
            lemma_parsed_results(out@);
        }
        SystemVerilogParser { symbols: keep_successes(out) }
    }

    /// Reads the units of a source text without its comments. Fails with
    /// what is wrong with the first lexeme that is wrong, or else with
    /// what is wrong with the first unit that is wrong.
    pub fn read(s: &str) -> (r: Result<Self, SystemVerilogError>)
        ensures
            match first_failure(lex(s@)) {
                Some(e) => r matches Err(f) && f == e,
                None => {
                    let tokens = without_comments(successes(lex(s@)));
                    let parsed = parse_from(kinds(tokens), places(tokens), 0);
                    match r {
                        Ok(p) => first_failure(parsed) is None && p@ == successes(parsed),
                        Err(e) => first_failure(parsed) == Some(e),
                    }
                },
            },
    {
        let all = match SystemVerilogTokenizer::from_str(s) {
            Ok(t) => t.into_tokens(),
            Err(e) => {
                return Err(e);
            },
        };
        let tokens = drop_comments(all);
        proof {
            assert(tokens_view(tokens@) =~= kinds(placed_view(tokens@)));
            assert(places_view(tokens@) =~= places(placed_view(tokens@)));
        }
        let out = SystemVerilogParser::parse(tokens);
        proof {
            lemma_parsed_results(out@);
        }
        match all_or_first_failure(out) {
            Ok(symbols) => Ok(SystemVerilogParser { symbols }),
            Err(e) => Err(e),
        }
    }

    /// The units.
    pub fn into_symbols(self) -> (symbols: Vec<SystemVerilogSymbol>)
        ensures
            symbols_view(symbols@) == self@,
    {
        self.symbols
    }
}

/// What succeeded and what failed first among the units read is what
/// succeeded and what failed first among their values.
pub proof fn lemma_parsed_results(out: Seq<Result<SystemVerilogSymbol, SystemVerilogError>>)
    ensures
        symbols_view(successes(out)) == successes(parsed_view(out)),
        first_failure(out) == first_failure(parsed_view(out)),
    decreases out.len(),
{
    if out.len() > 0 {
        lemma_parsed_results(out.drop_last());
        assert(parsed_view(out).drop_last() =~= parsed_view(out.drop_last()));
        match out.last() {
            Ok(s) => {
                assert(parsed_view(out).last() == Ok::<SymbolView, SystemVerilogError>(s@));
                assert(symbols_view(successes(out)) =~= symbols_view(
                    successes(out.drop_last()),
                ).push(s@));
            },
            Err(e) => {
                assert(parsed_view(out).last() == Err::<SymbolView, SystemVerilogError>(e));
            },
        }
    } else {
        assert(symbols_view(successes(out)) =~= Seq::empty());
    }
}

} // verus!
