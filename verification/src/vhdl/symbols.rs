//! The design units of a VHDL source text: entities with the number of
//! their port declarations, architectures with the names of the units they
//! instantiate, packages and configurations.

use vstd::prelude::*;
use crate::lang::{
    all_of_language, is_of_language, names_of, names_view, placed_names, DesignUnit, Dialect,
    Identifier, NameView, Position, UnitRecord,
};
use crate::results::{all_or_first_failure, first_failure, keep_successes, successes};
use crate::scan::{first_at, lemma_first_at};
use crate::vhdl::token::{
    placed_view, places_view, tokens_view, Keyword, Token, TokenView, VhdlError, VhdlToken,
};
use crate::vhdl::tokenizer::{lex, VhdlTokenizer};

verus! {

/// What is read of a source text: a unit, or what is wrong with one.
pub type Parsed = Result<UnitRecord, VhdlError>;

/// Whether the token follows `end` where something inside a unit ends.
pub open spec fn is_closer(t: TokenView) -> bool {
    t == TokenView::Keyword(Keyword::Closer) || t == TokenView::Keyword(Keyword::Component)
}

/// The place of the `end` that closes the unit whose inside starts at
/// `at`, or of the end of the text. Inside, `end` with a word behind it
/// that names what ends closes something else, and so does an `end` for
/// each body of a function or procedure that is open: `subs` counts those,
/// and `pending` says that `function` or `procedure` was read and not yet
/// the `is` or the `;` that tells a body from a declaration.
pub open spec fn unit_end(toks: Seq<TokenView>, at: int, subs: nat, pending: bool) -> int
    decreases toks.len() - at,
{
    if at < 0 || at >= toks.len() {
        toks.len() as int
    } else if toks[at] is EOF {
        at
    } else if toks[at] == TokenView::Keyword(Keyword::Function) || toks[at] == TokenView::Keyword(
        Keyword::Procedure,
    ) {
        unit_end(toks, at + 1, subs, true)
    } else if toks[at] == TokenView::Delimiter(';') {
        unit_end(toks, at + 1, subs, false)
    } else if toks[at] == TokenView::Keyword(Keyword::Is) {
        if pending {
            unit_end(toks, at + 1, subs + 1, false)
        } else {
            unit_end(toks, at + 1, subs, false)
        }
    } else if toks[at] == TokenView::Keyword(Keyword::End) {
        if at + 1 < toks.len() && is_closer(toks[at + 1]) {
            unit_end(toks, at + 2, subs, pending)
        } else if subs > 0 {
            unit_end(toks, at + 1, (subs - 1) as nat, pending)
        } else {
            at
        }
    } else {
        unit_end(toks, at + 1, subs, pending)
    }
}

/// The place behind the `begin` of the unit whose inside runs from `at` to
/// `end`: the first `begin` outside the bodies of functions and
/// procedures. `end` when there is none.
pub open spec fn body_begin(toks: Seq<TokenView>, at: int, end: int, subs: nat, pending: bool) -> int
    decreases end - at,
{
    if at < 0 || at >= end {
        end
    } else if toks[at] == TokenView::Keyword(Keyword::Begin) && subs == 0 {
        at + 1
    } else if toks[at] == TokenView::Keyword(Keyword::Function) || toks[at] == TokenView::Keyword(
        Keyword::Procedure,
    ) {
        body_begin(toks, at + 1, end, subs, true)
    } else if toks[at] == TokenView::Delimiter(';') {
        body_begin(toks, at + 1, end, subs, false)
    } else if toks[at] == TokenView::Keyword(Keyword::Is) {
        if pending {
            body_begin(toks, at + 1, end, subs + 1, false)
        } else {
            body_begin(toks, at + 1, end, subs, false)
        }
    } else if toks[at] == TokenView::Keyword(Keyword::End) {
        if at + 1 < end && is_closer(toks[at + 1]) {
            body_begin(toks, at + 2, end, subs, pending)
        } else if subs > 0 {
            body_begin(toks, at + 1, end, (subs - 1) as nat, pending)
        } else {
            body_begin(toks, at + 1, end, subs, pending)
        }
    } else {
        body_begin(toks, at + 1, end, subs, pending)
    }
}

/// The place behind the unit whose `end` stands at `end`: behind the `;`
/// that follows it.
pub open spec fn unit_next(toks: Seq<TokenView>, end: int) -> int {
    let stop = first_at(
        |i: int| toks[i] == TokenView::Delimiter(';') || toks[i] is EOF,
        end,
        toks.len() as int,
    );
    if stop < toks.len() && toks[stop] == TokenView::Delimiter(';') {
        stop + 1
    } else {
        stop
    }
}

/// Where the parts of a unit stand: its name, the name of its owner (or
/// its own again), the start of its inside and its `end`.
pub struct Frame {
    pub name: int,
    pub owner: int,
    pub body: int,
    pub end: int,
}

/// The frame of the unit whose name has to stand at `k`, or what is wrong
/// and where: the name, for a unit with an owner `of` and the owner's name,
/// and `is` have to follow each other, and an `end` has to close the unit.
pub open spec fn frame_at(toks: Seq<TokenView>, k: int, owned: bool) -> Result<
    Frame,
    (VhdlError, int),
> {
    let len = toks.len() as int;
    if !(0 <= k < len && toks[k] is Identifier) {
        Err((VhdlError::ExpectingIdentifier, k))
    } else if owned && !(k + 1 < len && toks[k + 1] == TokenView::Keyword(Keyword::Of)) {
        Err((VhdlError::ExpectingKeyword(Keyword::Of), k + 1))
    } else if owned && !(k + 2 < len && toks[k + 2] is Identifier) {
        Err((VhdlError::ExpectingIdentifier, k + 2))
    } else {
        let owner = if owned {
            k + 2
        } else {
            k
        };
        let is = owner + 1;
        if !(is < len && toks[is] == TokenView::Keyword(Keyword::Is)) {
            Err((VhdlError::ExpectingKeyword(Keyword::Is), is))
        } else {
            let end = unit_end(toks, is + 1, 0, false);
            if end >= len || toks[end] is EOF {
                Err((VhdlError::ExpectingKeyword(Keyword::End), end))
            } else {
                Ok(Frame { name: k, owner, body: is + 1, end })
            }
        }
    }
}

/// The place of the `)` that closes the parenthesis which is `depth` deep
/// at `at`, before `end`; `end` when it is not closed.
pub open spec fn close_place(toks: Seq<TokenView>, at: int, end: int, depth: nat) -> int
    decreases end - at,
{
    if at < 0 || at >= end {
        end
    } else if toks[at] == TokenView::Delimiter('(') {
        close_place(toks, at + 1, end, depth + 1)
    } else if toks[at] == TokenView::Delimiter(')') {
        if depth <= 1 {
            at
        } else {
            close_place(toks, at + 1, end, (depth - 1) as nat)
        }
    } else {
        close_place(toks, at + 1, end, depth)
    }
}

/// `count` and the number of `;` from `at` to `end` that stand one
/// parenthesis deep, where `at` is `depth` deep.
pub open spec fn separators(toks: Seq<TokenView>, at: int, end: int, depth: nat, count: nat) -> nat
    decreases end - at,
{
    if at < 0 || at >= end {
        count
    } else if toks[at] == TokenView::Delimiter('(') {
        separators(toks, at + 1, end, depth + 1, count)
    } else if toks[at] == TokenView::Delimiter(')') {
        separators(toks, at + 1, end, if depth > 0 {
            (depth - 1) as nat
        } else {
            0
        }, count)
    } else if toks[at] == TokenView::Delimiter(';') && depth == 1 {
        separators(toks, at + 1, end, depth, count + 1)
    } else {
        separators(toks, at + 1, end, depth, count)
    }
}

/// The number of port declarations of the entity whose inside runs from
/// `from` to `end`: none without `port (`, else one more than the `;` of
/// the list.
pub open spec fn ports_in(toks: Seq<TokenView>, from: int, end: int) -> nat {
    let port = first_at(|i: int| toks[i] == TokenView::Keyword(Keyword::Port), from, end);
    if port + 1 < end && toks[port + 1] == TokenView::Delimiter('(') {
        let close = close_place(toks, port + 2, end, 1);
        if close <= port + 2 {
            0
        } else {
            separators(toks, port + 2, close, 1, 1)
        }
    } else {
        0
    }
}

/// The place of the last name of the selected name that starts at `at`:
/// names with `.` between them are passed over.
pub open spec fn selected_last(toks: Seq<TokenView>, at: int) -> int
    decreases toks.len() - at,
{
    if 0 <= at && at + 2 < toks.len() && toks[at] is Identifier && toks[at + 1]
        == TokenView::Delimiter('.') {
        selected_last(toks, at + 2)
    } else {
        at
    }
}

/// Whether a statement can start behind the token.
pub open spec fn starts_statement(t: TokenView) -> bool {
    t == TokenView::Delimiter(';') || (t is Keyword && t != TokenView::Keyword(Keyword::Declaration))
}

/// The place of the name of the unit that the statement labelled at `k`
/// instantiates, or -1 when it instantiates none: behind the label and
/// `:` come `entity` and a selected name, or `component` and a name, or
/// a name followed by `port`, `generic` or `;`.
pub open spec fn instance_place(toks: Seq<TokenView>, k: int) -> int {
    let len = toks.len() as int;
    if !(0 < k && k + 2 < len && toks[k] is Identifier && toks[k + 1] == TokenView::Delimiter(':')
        && starts_statement(toks[k - 1])) {
        -1
    } else if toks[k + 2] == TokenView::Keyword(Keyword::Entity) {
        let last = selected_last(toks, k + 3);
        if last < len && toks[last] is Identifier {
            last
        } else {
            -1
        }
    } else if toks[k + 2] == TokenView::Keyword(Keyword::Component) {
        if k + 3 < len && toks[k + 3] is Identifier {
            k + 3
        } else {
            -1
        }
    } else if toks[k + 2] is Identifier && k + 3 < len && (toks[k + 3] == TokenView::Keyword(
        Keyword::Port,
    ) || toks[k + 3] == TokenView::Keyword(Keyword::Generic) || toks[k + 3]
        == TokenView::Delimiter(';')) {
        k + 2
    } else {
        -1
    }
}

/// The name that the token at `at` spells, as a name of VHDL read at the
/// token's place.
pub open spec fn named_at(toks: Seq<TokenView>, places: Seq<Position>, at: int) -> NameView {
    NameView { name: toks[at]->Identifier_0, dialect: Dialect::Vhdl, position: places[at] }
}

/// The names of the units instantiated by the statements labelled from
/// `from` up to `upto`, each once, where it is first instantiated, in the
/// order of their first instantiation.
pub open spec fn refs_upto(toks: Seq<TokenView>, places: Seq<Position>, from: int, upto: int) -> Seq<
    NameView,
>
    decreases upto - from,
{
    if upto <= from {
        Seq::empty()
    } else {
        let before = refs_upto(toks, places, from, upto - 1);
        let at = instance_place(toks, upto - 1);
        if at >= 0 && !names_of(before).contains(toks[at]->Identifier_0) {
            before.push(named_at(toks, places, at))
        } else {
            before
        }
    }
}

/// What kind of unit a reserved word at the start of a unit announces.
#[derive(Debug, Clone, Copy, PartialEq, Eq, Structural)]
pub enum UnitKind {
    Entity,
    Architecture,
    Package,
    PackageBody,
    Configuration,
}

/// The kind of unit that starts at `at`, if one does.
pub open spec fn kind_at(toks: Seq<TokenView>, at: int) -> Option<UnitKind> {
    if toks[at] == TokenView::Keyword(Keyword::Entity) {
        Some(UnitKind::Entity)
    } else if toks[at] == TokenView::Keyword(Keyword::Architecture) {
        Some(UnitKind::Architecture)
    } else if toks[at] == TokenView::Keyword(Keyword::Configuration) {
        Some(UnitKind::Configuration)
    } else if toks[at] == TokenView::Keyword(Keyword::Package) {
        if at + 1 < toks.len() && toks[at + 1] == TokenView::Keyword(Keyword::Body) {
            Some(UnitKind::PackageBody)
        } else {
            Some(UnitKind::Package)
        }
    } else {
        None
    }
}

/// The place where the name of a unit of the kind `kind` stands whose
/// reserved word stands at `at`.
pub open spec fn name_place(kind: UnitKind, at: int) -> int {
    if kind == UnitKind::PackageBody {
        at + 2
    } else {
        at + 1
    }
}

/// Whether a unit of the kind `kind` names an owner.
pub open spec fn is_owned(kind: UnitKind) -> bool {
    kind == UnitKind::Architecture || kind == UnitKind::Configuration
}

/// What is read of the unit of the kind `kind` at `at`: the unit, what is
/// wrong with it, or nothing for the body of a package.
pub open spec fn unit_at(
    toks: Seq<TokenView>,
    places: Seq<Position>,
    kind: UnitKind,
    at: int,
) -> Option<Parsed> {
    match frame_at(toks, name_place(kind, at), is_owned(kind)) {
        Err((e, _)) => Some(Err(e)),
        Ok(f) => {
            let name = named_at(toks, places, f.name);
            let owner = named_at(toks, places, f.owner);
            match kind {
                UnitKind::Entity => Some(
                    Ok(UnitRecord::Entity { name, ports: ports_in(toks, f.body, f.end) }),
                ),
                UnitKind::Architecture => Some(
                    Ok(
                        UnitRecord::Architecture {
                            name,
                            owner,
                            edges: refs_upto(
                                toks,
                                places,
                                body_begin(toks, f.body, f.end, 0, false),
                                f.end,
                            ),
                        },
                    ),
                ),
                UnitKind::Package => Some(Ok(UnitRecord::Package { name })),
                UnitKind::PackageBody => None,
                UnitKind::Configuration => Some(Ok(UnitRecord::Configuration { name, owner })),
            }
        },
    }
}

/// The place behind the unit of the kind `kind` at `at`; where the unit is
/// wrong, the place where that showed.
pub open spec fn unit_after(toks: Seq<TokenView>, kind: UnitKind, at: int) -> int {
    match frame_at(toks, name_place(kind, at), is_owned(kind)) {
        Err((_, place)) => place,
        Ok(f) => unit_next(toks, f.end),
    }
}

/// What the tokens from `at` on hold: a unit follows each `entity`,
/// `architecture`, `package` and `configuration`, and everything between
/// the units is passed over.
pub open spec fn parse_from(toks: Seq<TokenView>, places: Seq<Position>, at: int) -> Seq<Parsed>
    decreases toks.len() - at,
{
    if at < 0 || at >= toks.len() {
        Seq::empty()
    } else {
        match kind_at(toks, at) {
            Some(kind) => {
                let next = unit_after(toks, kind, at);
                let rest = if at < next <= toks.len() {
                    parse_from(toks, places, next)
                } else {
                    Seq::empty()
                };
                match unit_at(toks, places, kind, at) {
                    Some(parsed) => seq![parsed] + rest,
                    None => rest,
                }
            },
            None => parse_from(toks, places, at + 1),
        }
    }
}

/// Every name that is read of an instantiation is a name of VHDL.
pub proof fn lemma_refs_are_vhdl(toks: Seq<TokenView>, places: Seq<Position>, from: int, upto: int)
    ensures
        all_of_language(refs_upto(toks, places, from, upto), Dialect::Vhdl),
    decreases upto - from,
{
    if upto > from {
        lemma_refs_are_vhdl(toks, places, from, upto - 1);
    }
}

/// Every unit that is read is a unit of VHDL: its name, the name of its
/// owner and the names of the units it instantiates are names of VHDL.
pub proof fn lemma_units_are_vhdl(toks: Seq<TokenView>, places: Seq<Position>, at: int)
    ensures
        forall|k: int|
            0 <= k < parse_from(toks, places, at).len() ==> (#[trigger] parse_from(
                toks,
                places,
                at,
            )[k] matches Ok(unit) ==> is_of_language(unit, Dialect::Vhdl)),
    decreases toks.len() - at,
{
    if 0 <= at < toks.len() {
        match kind_at(toks, at) {
            Some(kind) => {
                let next = unit_after(toks, kind, at);
                if at < next <= toks.len() {
                    lemma_units_are_vhdl(toks, places, next);
                }
                match frame_at(toks, name_place(kind, at), is_owned(kind)) {
                    Ok(f) => {
                        lemma_refs_are_vhdl(
                            toks,
                            places,
                            body_begin(toks, f.body, f.end, 0, false),
                            f.end,
                        );
                    },
                    Err(_) => {},
                }
            },
            None => {
                lemma_units_are_vhdl(toks, places, at + 1);
            },
        }
    }
}

/// The values of what the parser hands back.
pub open spec fn parsed_view(out: Seq<Result<DesignUnit, VhdlError>>) -> Seq<Parsed> {
    Seq::new(
        out.len(),
        |i: int|
            match out[i] {
                Ok(u) => Ok(u.record()),
                Err(e) => Err(e),
            },
    )
}

/// What the parser reads of the units of `units`.
pub open spec fn symbols_view(units: Seq<DesignUnit>) -> Seq<UnitRecord> {
    Seq::new(units.len(), |i: int| units[i].record())
}

/// The tokens of `placed` without their places.
pub open spec fn kinds(placed: Seq<(Position, TokenView)>) -> Seq<TokenView> {
    Seq::new(placed.len(), |i: int| placed[i].1)
}

/// The places of the tokens of `placed`.
pub open spec fn places(placed: Seq<(Position, TokenView)>) -> Seq<Position> {
    Seq::new(placed.len(), |i: int| placed[i].0)
}

/// The tokens of `placed` that are no comments.
pub open spec fn without_comments(placed: Seq<(Position, TokenView)>) -> Seq<(Position, TokenView)>
    decreases placed.len(),
{
    if placed.len() == 0 {
        Seq::empty()
    } else if placed.last().1 is Comment {
        without_comments(placed.drop_last())
    } else {
        without_comments(placed.drop_last()).push(placed.last())
    }
}

fn closes(t: &VhdlToken) -> (r: bool)
    ensures
        r == is_closer(t@),
{
    t.check_keyword(&Keyword::Closer) || t.check_keyword(&Keyword::Component)
}

fn opens_subprogram(t: &VhdlToken) -> (r: bool)
    ensures
        r == (t@ == TokenView::Keyword(Keyword::Function) || t@ == TokenView::Keyword(
            Keyword::Procedure,
        )),
{
    t.check_keyword(&Keyword::Function) || t.check_keyword(&Keyword::Procedure)
}

/// The place of the `end` that closes the unit whose inside starts at
/// `from`.
fn find_unit_end(tokens: &Vec<Token>, from: usize) -> (at: usize)
    requires
        from <= tokens.len(),
    ensures
        at == unit_end(tokens_view(tokens@), from as int, 0, false),
        from <= at <= tokens.len(),
{
    let ghost toks = tokens_view(tokens@);
    let mut i: usize = from;
    let mut subs: usize = 0;
    let mut pending = false;
    while i < tokens.len()
        invariant
            from <= i <= tokens.len(),
            toks == tokens_view(tokens@),
            subs <= i - from,
            unit_end(toks, from as int, 0, false) == unit_end(toks, i as int, subs as nat, pending),
        decreases tokens.len() - i,
    {
        let t = tokens[i].as_type();
        assert(toks[i as int] == t@);
        if t.is_eof() {
            return i;
        } else if opens_subprogram(t) {
            pending = true;
            i += 1;
        } else if t.check_delimiter(';') {
            pending = false;
            i += 1;
        } else if t.check_keyword(&Keyword::Is) {
            if pending {
                subs += 1;
            }
            pending = false;
            i += 1;
        } else if t.check_keyword(&Keyword::End) {
            if tokens.len() - i > 1 && closes(tokens[i + 1].as_type()) {
                assert(toks[i + 1] == tokens[i + 1]@);
                i += 2;
            } else {
                proof {
                    if i + 1 < tokens.len() {
                        assert(toks[i + 1] == tokens[i + 1]@);
                    }
                }
                if subs > 0 {
                    subs -= 1;
                    i += 1;
                } else {
                    return i;
                }
            }
        } else {
            i += 1;
        }
    }
    i
}

/// The place behind the `begin` of the unit whose inside runs from `from`
/// to `end`.
fn find_body_begin(tokens: &Vec<Token>, from: usize, end: usize) -> (at: usize)
    requires
        from <= end <= tokens.len(),
    ensures
        at == body_begin(tokens_view(tokens@), from as int, end as int, 0, false),
        from <= at <= end,
{
    let ghost toks = tokens_view(tokens@);
    let mut i: usize = from;
    let mut subs: usize = 0;
    let mut pending = false;
    while i < end
        invariant
            from <= i <= end <= tokens.len(),
            toks == tokens_view(tokens@),
            subs <= i - from,
            body_begin(toks, from as int, end as int, 0, false) == body_begin(
                toks,
                i as int,
                end as int,
                subs as nat,
                pending,
            ),
        decreases end - i,
    {
        let t = tokens[i].as_type();
        assert(toks[i as int] == t@);
        if t.check_keyword(&Keyword::Begin) && subs == 0 {
            return i + 1;
        } else if opens_subprogram(t) {
            pending = true;
            i += 1;
        } else if t.check_delimiter(';') {
            pending = false;
            i += 1;
        } else if t.check_keyword(&Keyword::Is) {
            if pending {
                subs += 1;
            }
            pending = false;
            i += 1;
        } else if t.check_keyword(&Keyword::End) {
            if end - i > 1 && closes(tokens[i + 1].as_type()) {
                assert(toks[i + 1] == tokens[i + 1]@);
                i += 2;
            } else {
                proof {
                    if i + 1 < end {
                        assert(toks[i + 1] == tokens[i + 1]@);
                    }
                }
                if subs > 0 {
                    subs -= 1;
                }
                i += 1;
            }
        } else {
            i += 1;
        }
    }
    end
}

/// The place behind the unit whose `end` stands at `end`.
fn find_unit_next(tokens: &Vec<Token>, end: usize) -> (next: usize)
    requires
        end <= tokens.len(),
    ensures
        next == unit_next(tokens_view(tokens@), end as int),
        end <= next <= tokens.len(),
{
    let ghost toks = tokens_view(tokens@);
    let mut i: usize = end;
    while i < tokens.len() && !(tokens[i].as_type().check_delimiter(';')
        || tokens[i].as_type().is_eof())
        invariant
            end <= i <= tokens.len(),
            toks == tokens_view(tokens@),
            forall|j: int|
                end <= j < i ==> !(toks[j] == TokenView::Delimiter(';') || toks[j] is EOF),
        decreases tokens.len() - i,
    {
        assert(toks[i as int] == tokens[i as int]@);
        i += 1;
    }
    proof {
        if i < tokens.len() {
            assert(toks[i as int] == tokens[i as int]@);
        }
        lemma_first_at(
            |i: int| toks[i] == TokenView::Delimiter(';') || toks[i] is EOF,
            end as int,
            tokens.len() as int,
            i as int,
        );
    }
    if i < tokens.len() && tokens[i].as_type().check_delimiter(';') {
        i + 1
    } else {
        i
    }
}

/// The place of the `)` that closes the parenthesis opened before `from`.
fn find_close(tokens: &Vec<Token>, from: usize, end: usize) -> (at: usize)
    requires
        0 < from <= end <= tokens.len(),
    ensures
        at == close_place(tokens_view(tokens@), from as int, end as int, 1),
        from <= at <= end,
{
    let ghost toks = tokens_view(tokens@);
    let mut i: usize = from;
    let mut depth: usize = 1;
    while i < end
        invariant
            0 < from <= i <= end <= tokens.len(),
            toks == tokens_view(tokens@),
            1 <= depth <= i - from + 1,
            close_place(toks, from as int, end as int, 1) == close_place(
                toks,
                i as int,
                end as int,
                depth as nat,
            ),
        decreases end - i,
    {
        let t = tokens[i].as_type();
        assert(toks[i as int] == t@);
        if t.check_delimiter('(') {
            depth += 1;
        } else if t.check_delimiter(')') {
            if depth <= 1 {
                return i;
            }
            depth -= 1;
        }
        i += 1;
    }
    end
}

/// One more than the number of `;` from `from` to `end` that stand one
/// parenthesis deep.
fn count_separators(tokens: &Vec<Token>, from: usize, end: usize) -> (n: usize)
    requires
        0 < from <= end <= tokens.len(),
    ensures
        n == separators(tokens_view(tokens@), from as int, end as int, 1, 1),
{
    let ghost toks = tokens_view(tokens@);
    let mut i: usize = from;
    let mut depth: usize = 1;
    let mut count: usize = 1;
    while i < end
        invariant
            0 < from <= i <= end <= tokens.len(),
            toks == tokens_view(tokens@),
            depth <= i - from + 1,
            1 <= count <= i - from + 1,
            separators(toks, from as int, end as int, 1, 1) == separators(
                toks,
                i as int,
                end as int,
                depth as nat,
                count as nat,
            ),
        decreases end - i,
    {
        let t = tokens[i].as_type();
        assert(toks[i as int] == t@);
        if t.check_delimiter('(') {
            depth += 1;
        } else if t.check_delimiter(')') {
            if depth > 0 {
                depth -= 1;
            }
        } else if t.check_delimiter(';') && depth == 1 {
            count += 1;
        }
        i += 1;
    }
    count
}

/// The number of port declarations of the entity whose inside runs from
/// `from` to `end`.
fn read_ports(tokens: &Vec<Token>, from: usize, end: usize) -> (n: usize)
    requires
        from <= end <= tokens.len(),
    ensures
        n == ports_in(tokens_view(tokens@), from as int, end as int),
{
    let ghost toks = tokens_view(tokens@);
    let mut port: usize = from;
    while port < end && !tokens[port].as_type().check_keyword(&Keyword::Port)
        invariant
            from <= port <= end <= tokens.len(),
            toks == tokens_view(tokens@),
            forall|j: int| from <= j < port ==> toks[j] != TokenView::Keyword(Keyword::Port),
        decreases end - port,
    {
        assert(toks[port as int] == tokens[port as int]@);
        port += 1;
    }
    proof {
        if port < end {
            assert(toks[port as int] == tokens[port as int]@);
        }
        lemma_first_at(
            |i: int| toks[i] == TokenView::Keyword(Keyword::Port),
            from as int,
            end as int,
            port as int,
        );
    }
    if end - port > 1 {
        assert(toks[port + 1] == tokens[port + 1]@);
        if tokens[port + 1].as_type().check_delimiter('(') {
            let close = find_close(tokens, port + 2, end);
            if close <= port + 2 {
                return 0;
            }
            return count_separators(tokens, port + 2, close);
        }
    }
    0
}

/// The place of the last name of the selected name that starts at `from`.
fn find_selected_last(tokens: &Vec<Token>, from: usize) -> (at: usize)
    requires
        from <= tokens.len(),
    ensures
        at == selected_last(tokens_view(tokens@), from as int),
        from <= at <= tokens.len(),
{
    let ghost toks = tokens_view(tokens@);
    let mut i: usize = from;
    while tokens.len() - i > 2 && tokens[i].as_type().as_identifier().is_some() && tokens[i
        + 1].as_type().check_delimiter('.')
        invariant
            from <= i <= tokens.len(),
            toks == tokens_view(tokens@),
            selected_last(toks, from as int) == selected_last(toks, i as int),
        decreases tokens.len() - i,
    {
        assert(toks[i as int] == tokens[i as int]@);
        assert(toks[i + 1] == tokens[i + 1]@);
        i += 2;
    }
    proof {
        if i + 2 < tokens.len() {
            assert(toks[i as int] == tokens[i as int]@);
            assert(toks[i + 1] == tokens[i + 1]@);
        }
    }
    i
}

fn can_start_statement(t: &VhdlToken) -> (r: bool)
    ensures
        r == starts_statement(t@),
{
    match t.as_keyword() {
        Some(k) => match k {
            Keyword::Declaration => false,
            _ => true,
        },
        None => t.check_delimiter(';'),
    }
}

/// The place of the name of the unit that the statement labelled at `k`
/// instantiates, if it instantiates one.
fn find_instance(tokens: &Vec<Token>, k: usize) -> (r: Option<usize>)
    requires
        k < tokens.len(),
    ensures
        match r {
            Some(at) => instance_place(tokens_view(tokens@), k as int) == at && at < tokens.len()
                && tokens[at as int]@ is Identifier,
            None => instance_place(tokens_view(tokens@), k as int) == -1,
        },
{
    let ghost toks = tokens_view(tokens@);
    if k == 0 || tokens.len() - k <= 2 {
        return None;
    }
    proof {
        assert(toks[k as int] == tokens[k as int]@);
        assert(toks[k - 1] == tokens[k - 1]@);
        assert(toks[k + 1] == tokens[k + 1]@);
        assert(toks[k + 2] == tokens[k + 2]@);
        if k + 3 < tokens.len() {
            assert(toks[k + 3] == tokens[k + 3]@);
        }
    }
    if tokens[k].as_type().as_identifier().is_none() || !tokens[k + 1].as_type().check_delimiter(
        ':',
    ) || !can_start_statement(tokens[k - 1].as_type()) {
        return None;
    }
    let third = tokens[k + 2].as_type();
    if third.check_keyword(&Keyword::Entity) {
        let last = find_selected_last(tokens, k + 3);
        if last < tokens.len() {
            assert(toks[last as int] == tokens[last as int]@);
            if tokens[last].as_type().as_identifier().is_some() {
                return Some(last);
            }
        }
        None
    } else if third.check_keyword(&Keyword::Component) {
        if tokens.len() - k > 3 && tokens[k + 3].as_type().as_identifier().is_some() {
            Some(k + 3)
        } else {
            None
        }
    } else if third.as_identifier().is_some() && tokens.len() - k > 3 {
        let fourth = tokens[k + 3].as_type();
        if fourth.check_keyword(&Keyword::Port) || fourth.check_keyword(&Keyword::Generic)
            || fourth.check_delimiter(';') {
            Some(k + 2)
        } else {
            None
        }
    } else {
        None
    }
}

/// Whether `refs` holds the name `name`.
fn holds_name(refs: &Vec<Identifier>, name: &String) -> (r: bool)
    ensures
        r == names_view(refs@).contains(name@),
{
    let mut i: usize = 0;
    while i < refs.len()
        invariant
            i <= refs.len(),
            forall|j: int| 0 <= j < i ==> names_view(refs@)[j] != name@,
        decreases refs.len() - i,
    {
        let other = refs[i].to_string();
        if other == *name {
            assert(names_view(refs@)[i as int] == name@);
            return true;
        }
        i += 1;
    }
    false
}

/// The names of the units instantiated from `from` up to `end`.
fn read_refs(tokens: &Vec<Token>, from: usize, end: usize) -> (refs: Vec<Identifier>)
    requires
        from <= end <= tokens.len(),
    ensures
        placed_names(refs@) == refs_upto(
            tokens_view(tokens@),
            places_view(tokens@),
            from as int,
            end as int,
        ),
{
    let ghost toks = tokens_view(tokens@);
    let ghost plcs = places_view(tokens@);
    let mut refs: Vec<Identifier> = Vec::new();
    let mut k: usize = from;
    assert(placed_names(refs@) =~= Seq::empty());
    while k < end
        invariant
            from <= k <= end <= tokens.len(),
            toks == tokens_view(tokens@),
            plcs == places_view(tokens@),
            placed_names(refs@) == refs_upto(toks, plcs, from as int, k as int),
        decreases end - k,
    {
        assert(names_of(placed_names(refs@)) =~= names_view(refs@));
        match find_instance(tokens, k) {
            Some(at) => {
                assert(toks[at as int] == tokens[at as int]@);
                assert(plcs[at as int] == tokens[at as int].spec_position());
                match tokens[at].as_type().as_identifier() {
                    Some(name) => {
                        if !holds_name(&refs, name) {
                            let ghost before = placed_names(refs@);
                            refs.push(Identifier::at(name.clone(), Dialect::Vhdl, *tokens[at].locate()));
                            assert(placed_names(refs@) =~= before.push(
                                named_at(toks, plcs, at as int),
                            ));
                        }
                    },
                    None => {},
                }
            },
            None => {},
        }
        k += 1;
    }
    refs
}

/// The frame of the unit whose name has to stand at `k`.
fn read_frame(tokens: &Vec<Token>, k: usize, owned: bool) -> (r: Result<
    (usize, usize, usize, usize),
    (VhdlError, usize),
>)
    requires
        k <= tokens.len(),
    ensures
        match r {
            Ok((name, owner, body, end)) => frame_at(tokens_view(tokens@), k as int, owned) == Ok::<
                Frame,
                (VhdlError, int),
            >(Frame { name: name as int, owner: owner as int, body: body as int, end: end as int })
                && name < tokens.len() && owner < tokens.len() && body <= end < tokens.len()
                && tokens[name as int]@ is Identifier && tokens[owner as int]@ is Identifier,
            Err((e, place)) => frame_at(tokens_view(tokens@), k as int, owned) == Err::<
                Frame,
                (VhdlError, int),
            >((e, place as int)) && k <= place <= tokens.len(),
        },
{
    let ghost toks = tokens_view(tokens@);
    let len = tokens.len();
    proof {
        if k < len {
            assert(toks[k as int] == tokens[k as int]@);
        }
        if k + 1 < len {
            assert(toks[k + 1] == tokens[k + 1]@);
        }
        if k + 2 < len {
            assert(toks[k + 2] == tokens[k + 2]@);
        }
        if k + 3 < len {
            assert(toks[k + 3] == tokens[k + 3]@);
        }
    }
    if !(k < len && tokens[k].as_type().as_identifier().is_some()) {
        return Err((VhdlError::ExpectingIdentifier, k));
    }
    let mut owner = k;
    if owned {
        if !(len - k > 1 && tokens[k + 1].as_type().check_keyword(&Keyword::Of)) {
            return Err((VhdlError::ExpectingKeyword(Keyword::Of), k + 1));
        }
        if !(len - k > 2 && tokens[k + 2].as_type().as_identifier().is_some()) {
            return Err((VhdlError::ExpectingIdentifier, k + 2));
        }
        owner = k + 2;
    }
    let is = owner + 1;
    if !(is < len && tokens[is].as_type().check_keyword(&Keyword::Is)) {
        return Err((VhdlError::ExpectingKeyword(Keyword::Is), is));
    }
    let end = find_unit_end(tokens, is + 1);
    proof {
        if end < len {
            assert(toks[end as int] == tokens[end as int]@);
        }
    }
    if end >= len || tokens[end].as_type().is_eof() {
        return Err((VhdlError::ExpectingKeyword(Keyword::End), end));
    }
    Ok((k, owner, is + 1, end))
}

/// The name at `at`.
fn name_at(tokens: &Vec<Token>, at: usize) -> (id: Identifier)
    requires
        at < tokens.len(),
        tokens[at as int]@ is Identifier,
    ensures
        id.placed() == named_at(tokens_view(tokens@), places_view(tokens@), at as int),
{
    assert(tokens_view(tokens@)[at as int] == tokens[at as int]@);
    assert(places_view(tokens@)[at as int] == tokens[at as int].spec_position());
    match tokens[at].as_type().as_identifier() {
        Some(name) => Identifier::at(name.clone(), Dialect::Vhdl, *tokens[at].locate()),
        None => Identifier::new("", Dialect::Vhdl),
    }
}

/// The kind of unit that starts at `at`, if one does.
fn read_kind(tokens: &Vec<Token>, at: usize) -> (r: Option<UnitKind>)
    requires
        at < tokens.len(),
    ensures
        r == kind_at(tokens_view(tokens@), at as int),
{
    let ghost toks = tokens_view(tokens@);
    let t = tokens[at].as_type();
    assert(toks[at as int] == t@);
    if t.check_keyword(&Keyword::Entity) {
        Some(UnitKind::Entity)
    } else if t.check_keyword(&Keyword::Architecture) {
        Some(UnitKind::Architecture)
    } else if t.check_keyword(&Keyword::Configuration) {
        Some(UnitKind::Configuration)
    } else if t.check_keyword(&Keyword::Package) {
        proof {
            if at + 1 < tokens.len() {
                assert(toks[at + 1] == tokens[at + 1]@);
            }
        }
        if tokens.len() - at > 1 && tokens[at + 1].as_type().check_keyword(&Keyword::Body) {
            Some(UnitKind::PackageBody)
        } else {
            Some(UnitKind::Package)
        }
    } else {
        None
    }
}

/// Reads the unit of the kind `kind` whose reserved word stands at `at`:
/// the unit, what is wrong with it, or nothing for the body of a package;
/// and the place behind it.
pub fn parse_unit(tokens: &Vec<Token>, kind: UnitKind, at: usize) -> (r: (
    Option<Result<DesignUnit, VhdlError>>,
    usize,
))
    requires
        at < tokens.len(),
        kind_at(tokens_view(tokens@), at as int) == Some(kind),
    ensures
        match r.0 {
            Some(Ok(unit)) => unit_at(tokens_view(tokens@), places_view(tokens@), kind, at as int)
                == Some(Ok::<UnitRecord, VhdlError>(unit.record())),
            Some(Err(e)) => unit_at(tokens_view(tokens@), places_view(tokens@), kind, at as int)
                == Some(Err::<UnitRecord, VhdlError>(e)),
            None => unit_at(tokens_view(tokens@), places_view(tokens@), kind, at as int) is None,
        },
        r.1 == unit_after(tokens_view(tokens@), kind, at as int),
        at < r.1 <= tokens.len(),
{
    let ghost toks = tokens_view(tokens@);
    let owned = match kind {
        UnitKind::Architecture => true,
        UnitKind::Configuration => true,
        _ => false,
    };
    let k = match kind {
        UnitKind::PackageBody => at + 2,
        _ => at + 1,
    };
    let (name, owner, body, end) = match read_frame(tokens, k, owned) {
        Ok(frame) => frame,
        Err((e, place)) => {
            return (Some(Err(e)), place);
        },
    };
    let next = find_unit_next(tokens, end);
    let unit = match kind {
        UnitKind::Entity => Some(
            Ok(DesignUnit::Entity { name: name_at(tokens, name), ports: read_ports(tokens, body, end) }),
        ),
        UnitKind::Architecture => {
            let begin = find_body_begin(tokens, body, end);
            Some(
                Ok(
                    DesignUnit::Architecture {
                        name: name_at(tokens, name),
                        owner: name_at(tokens, owner),
                        edges: read_refs(tokens, begin, end),
                    },
                ),
            )
        },
        UnitKind::Package => Some(Ok(DesignUnit::Package { name: name_at(tokens, name) })),
        UnitKind::PackageBody => None,
        UnitKind::Configuration => Some(
            Ok(
                DesignUnit::Configuration {
                    name: name_at(tokens, name),
                    owner: name_at(tokens, owner),
                },
            ),
        ),
    };
    (unit, next)
}

/// The tokens that are no comments.
fn drop_comments(all: Vec<Token>) -> (tokens: Vec<Token>)
    ensures
        placed_view(tokens@) == without_comments(placed_view(all@)),
{
    let ghost given = placed_view(all@);
    let mut tokens: Vec<Token> = Vec::new();
    assert(given.take(0) =~= Seq::empty());
    assert(placed_view(tokens@) =~= Seq::empty());
    for t in it: all.into_iter()
        invariant
            it.seq() == all@,
            given == placed_view(all@),
            placed_view(tokens@) == without_comments(given.take(it.index() as int)),
    {
        proof {
            let next = given.take(it.index() + 1);
            assert(next.drop_last() =~= given.take(it.index() as int));
            assert(next.last() == (t.spec_position(), t@));
        }
        if !t.as_type().is_comment() {
            let ghost before = placed_view(tokens@);
            tokens.push(t);
            assert(placed_view(tokens@) =~= before.push((t.spec_position(), t@)));
        }
    }
    proof {
        assert(given.take(all@.len() as int) =~= given);
    }
    tokens
}

/// The design units of a source text.
#[derive(Debug, PartialEq, Eq)]
pub struct VHDLParser {
    symbols: Vec<DesignUnit>,
}

impl VHDLParser {
    /// What was read of the units.
    pub closed spec fn view(&self) -> Seq<UnitRecord> {
        symbols_view(self.symbols@)
    }

    /// Reads the units that the tokens hold: for each a unit or what is
    /// wrong with it.
    pub fn parse(tokens: Vec<Token>) -> (out: Vec<Result<DesignUnit, VhdlError>>)
        ensures
            parsed_view(out@) == parse_from(tokens_view(tokens@), places_view(tokens@), 0),
    {
        let ghost toks = tokens_view(tokens@);
        let ghost plcs = places_view(tokens@);
        let mut out: Vec<Result<DesignUnit, VhdlError>> = Vec::new();
        let mut i: usize = 0;
        assert(parsed_view(out@) + parse_from(toks, plcs, 0) =~= parse_from(toks, plcs, 0));
        while i < tokens.len()
            invariant
                i <= tokens.len(),
                toks == tokens_view(tokens@),
                plcs == places_view(tokens@),
                parsed_view(out@) + parse_from(toks, plcs, i as int) == parse_from(toks, plcs, 0),
            decreases tokens.len() - i,
        {
            let ghost before = parsed_view(out@);
            match read_kind(&tokens, i) {
                Some(kind) => {
                    let (unit, next) = parse_unit(&tokens, kind, i);
                    match unit {
                        Some(parsed) => {
                            let ghost value = unit_at(toks, plcs, kind, i as int)->0;
                            out.push(parsed);
                            proof {
                                assert(parsed_view(out@) =~= before.push(value));
                                assert(before.push(value) + parse_from(toks, plcs, next as int)
                                    =~= before + parse_from(toks, plcs, i as int));
                            }
                        },
                        None => {},
                    }
                    i = next;
                },
                None => {
                    i += 1;
                },
            }
        }
        proof {
            assert(parsed_view(out@) + parse_from(toks, plcs, tokens.len() as int) =~= parsed_view(
                out@,
            ));
        }
        out
    }

    /// Reads the units of a source text without its comments and passes
    /// over everything that is wrong.
    pub fn read_lazy(s: &str) -> (p: Self)
        ensures
            p@ == successes(
                parse_from(
                    kinds(without_comments(successes(lex(s@)))),
                    places(without_comments(successes(lex(s@)))),
                    0,
                ),
            ),
    {
        let tokens = drop_comments(VhdlTokenizer::from_source_code(s).into_tokens());
        proof {
            assert(tokens_view(tokens@) =~= kinds(placed_view(tokens@)));
            assert(places_view(tokens@) =~= places(placed_view(tokens@)));
        }
        let out = VHDLParser::parse(tokens);
        proof {
            lemma_parsed_results(out@);
        }
        VHDLParser { symbols: keep_successes(out) }
    }

    /// Reads the units of a source text without its comments. Fails with
    /// what is wrong with the first lexeme that is wrong, or else with
    /// what is wrong with the first unit that is wrong.
    pub fn read(s: &str) -> (r: Result<Self, VhdlError>)
        ensures
            match first_failure(lex(s@)) {
                Some(e) => r matches Err(f) && f == e,
                None => {
                    let tokens = without_comments(successes(lex(s@)));
                    let parsed = parse_from(kinds(tokens), places(tokens), 0);
                    match r {
                        Ok(p) => first_failure(parsed) is None && p@ == successes(parsed),
                        Err(e) => first_failure(parsed) == Some(e),
                    }
                },
            },
    {
        let all = match VhdlTokenizer::from_str(s) {
            Ok(t) => t.into_tokens(),
            Err(e) => {
                return Err(e);
            },
        };
        let tokens = drop_comments(all);
        proof {
            assert(tokens_view(tokens@) =~= kinds(placed_view(tokens@)));
            assert(places_view(tokens@) =~= places(placed_view(tokens@)));
        }
        let out = VHDLParser::parse(tokens);
        proof {
            lemma_parsed_results(out@);
        }
        match all_or_first_failure(out) {
            Ok(symbols) => Ok(VHDLParser { symbols }),
            Err(e) => Err(e),
        }
    }

    /// The units.
    pub fn into_symbols(self) -> (symbols: Vec<DesignUnit>)
        ensures
            symbols_view(symbols@) == self@,
    {
        self.symbols
    }
}

/// What succeeded and what failed first among the units read is what
/// succeeded and what failed first among their values.
pub proof fn lemma_parsed_results(out: Seq<Result<DesignUnit, VhdlError>>)
    ensures
        symbols_view(successes(out)) == successes(parsed_view(out)),
        first_failure(out) == first_failure(parsed_view(out)),
    decreases out.len(),
{
    if out.len() > 0 {
        lemma_parsed_results(out.drop_last());
        assert(parsed_view(out).drop_last() =~= parsed_view(out.drop_last()));
        match out.last() {
            Ok(u) => {
                assert(parsed_view(out).last() == Ok::<UnitRecord, VhdlError>(u.record()));
                assert(symbols_view(successes(out)) =~= symbols_view(
                    successes(out.drop_last()),
                ).push(u.record()));
            },
            Err(e) => {
                assert(parsed_view(out).last() == Err::<UnitRecord, VhdlError>(e));
            },
        }
    } else {
        assert(symbols_view(successes(out)) =~= Seq::empty());
    }
}

} // verus!
