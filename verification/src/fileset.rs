//! Files by their names: what language a file holds, whether its name
//! marks a testbench, and named sets of files chosen by glob patterns.

use vstd::prelude::*;
use crate::text::{
    append_chars, append_str, chars_of, code_of, find_char, lower_code, lower_code_of, position_of,
    slice_chars, string_of,
};

verus! {

/// The place of the last `c` in `s` before `upto`, or -1 when there is none.
pub open spec fn last_position(s: Seq<char>, c: char, upto: int) -> int
    decreases upto,
{
    if upto <= 0 {
        -1
    } else if s[upto - 1] == c {
        upto - 1
    } else {
        last_position(s, c, upto - 1)
    }
}

/// The last part of a path: what follows its last `/`.
pub open spec fn file_name(path: Seq<char>) -> Seq<char> {
    path.subrange(last_position(path, '/', path.len() as int) + 1, path.len() as int)
}

/// The place of the dot that starts the extension of the file name `name`,
/// or the length of `name` when it has none: the last dot, unless it is the
/// first character.
pub open spec fn extension_dot(name: Seq<char>) -> int {
    let dot = last_position(name, '.', name.len() as int);
    if dot > 0 {
        dot
    } else {
        name.len() as int
    }
}

/// The file's name without its extension.
pub open spec fn file_stem(path: Seq<char>) -> Seq<char> {
    let name = file_name(path);
    name.subrange(0, extension_dot(name))
}

/// The file's extension without the dot; empty when there is none.
pub open spec fn extension(path: Seq<char>) -> Seq<char> {
    let name = file_name(path);
    let dot = extension_dot(name);
    if dot < name.len() {
        name.subrange(dot + 1, name.len() as int)
    } else {
        Seq::empty()
    }
}

/// `s` is `word` but for the case of its letters; `word` is in small
/// letters.
pub open spec fn spells(s: Seq<char>, word: Seq<char>) -> bool {
    &&& s.len() == word.len()
    &&& forall|i: int| 0 <= i < s.len() ==> lower_code(s[i]) == word[i] as int
}

/// The file holds VHDL: its extension is `vhd` or `vhdl`.
pub open spec fn is_vhdl_name(path: Seq<char>) -> bool {
    let e = extension(path);
    spells(e, seq!['v', 'h', 'd']) || spells(e, seq!['v', 'h', 'd', 'l'])
}

/// The file holds Verilog: its extension is `v`, `vl`, `vlg`, `vh` or
/// `verilog`.
pub open spec fn is_verilog_name(path: Seq<char>) -> bool {
    let e = extension(path);
    spells(e, seq!['v']) || spells(e, seq!['v', 'l']) || spells(e, seq!['v', 'l', 'g']) || spells(
        e,
        seq!['v', 'h'],
    ) || spells(e, seq!['v', 'e', 'r', 'i', 'l', 'o', 'g'])
}

/// The file holds SystemVerilog: its extension is `sv` or `svh`.
pub open spec fn is_systemverilog_name(path: Seq<char>) -> bool {
    let e = extension(path);
    spells(e, seq!['s', 'v']) || spells(e, seq!['s', 'v', 'h'])
}

/// The name marks a testbench: it begins with `tb_` or ends with `_tb`, in
/// either case.
pub open spec fn is_testbench_stem(stem: Seq<char>) -> bool {
    stem.len() >= 3 && (spells(stem.subrange(0, 3), seq!['t', 'b', '_']) || spells(
        stem.subrange(stem.len() - 3, stem.len() as int),
        seq!['_', 't', 'b'],
    ))
}

/// The file holds VHDL for synthesis: VHDL whose name marks no testbench.
pub open spec fn is_rtl_name(path: Seq<char>) -> bool {
    is_vhdl_name(path) && !is_testbench_stem(file_stem(path))
}

/// The place of the last `c` in `s` before `upto`, or `None`.
pub fn find_last(s: &Vec<char>, c: char, upto: usize) -> (r: Option<usize>)
    requires
        upto <= s.len(),
    ensures
        match r {
            Some(at) => at == last_position(s@, c, upto as int) && at < upto,
            None => last_position(s@, c, upto as int) == -1,
        },
{
    let mut i: usize = upto;
    while i > 0
        invariant
            i <= upto <= s.len(),
            last_position(s@, c, upto as int) == last_position(s@, c, i as int),
        decreases i,
    {
        if s[i - 1] == c {
            return Some(i - 1);
        }
        i -= 1;
    }
    None
}

/// The characters of the last part of `path`.
pub fn file_name_of(path: &Vec<char>) -> (name: Vec<char>)
    ensures
        name@ == file_name(path@),
{
    let from = match find_last(path, '/', path.len()) {
        Some(at) => at + 1,
        None => 0,
    };
    slice_chars(path, from, path.len())
}

fn extension_dot_of(name: &Vec<char>) -> (dot: usize)
    ensures
        dot == extension_dot(name@),
        dot <= name.len(),
{
    match find_last(name, '.', name.len()) {
        Some(at) => if at > 0 {
            at
        } else {
            name.len()
        },
        None => name.len(),
    }
}

/// The characters of the file's name without its extension.
pub fn file_stem_of(path: &Vec<char>) -> (stem: Vec<char>)
    ensures
        stem@ == file_stem(path@),
{
    let name = file_name_of(path);
    let dot = extension_dot_of(&name);
    slice_chars(&name, 0, dot)
}

/// The characters of the file's extension.
pub fn extension_of(path: &Vec<char>) -> (ext: Vec<char>)
    ensures
        ext@ == extension(path@),
{
    let name = file_name_of(path);
    let dot = extension_dot_of(&name);
    if dot < name.len() {
        slice_chars(&name, dot + 1, name.len())
    } else {
        Vec::new()
    }
}

/// Whether the characters of `s` from `from` on, `word.len()` many, are
/// `word` but for the case of their letters.
fn spells_at(s: &Vec<char>, from: usize, word: &Vec<char>) -> (r: bool)
    requires
        from + word.len() <= s.len(),
    ensures
        r == spells(s@.subrange(from as int, from + word.len()), word@),
{
    let ghost part = s@.subrange(from as int, from + word.len());
    let mut i: usize = 0;
    while i < word.len()
        invariant
            from + word.len() <= s.len(),
            part == s@.subrange(from as int, from + word.len()),
            i <= word.len(),
            forall|j: int| 0 <= j < i ==> lower_code(part[j]) == word[j] as int,
        decreases word.len() - i,
    {
        let c = s[from + i];
        assert(part[i as int] == c);
        if lower_code_of(c) != code_of(word[i]) {
            return false;
        }
        i += 1;
    }
    true
}

/// Whether `s` is `word` but for the case of its letters.
fn spells_word(s: &Vec<char>, word: &str) -> (r: bool)
    ensures
        r == spells(s@, word@),
{
    let w = chars_of(word);
    if s.len() != w.len() {
        return false;
    }
    assert(s@.subrange(0, 0 + w.len()) =~= s@);
    spells_at(s, 0, &w)
}

proof fn lemma_words()
    ensures
        "vhd"@ == seq!['v', 'h', 'd'],
        "vhdl"@ == seq!['v', 'h', 'd', 'l'],
        "v"@ == seq!['v'],
        "vl"@ == seq!['v', 'l'],
        "vlg"@ == seq!['v', 'l', 'g'],
        "vh"@ == seq!['v', 'h'],
        "verilog"@ == seq!['v', 'e', 'r', 'i', 'l', 'o', 'g'],
        "sv"@ == seq!['s', 'v'],
        "svh"@ == seq!['s', 'v', 'h'],
        "tb_"@ == seq!['t', 'b', '_'],
        "_tb"@ == seq!['_', 't', 'b'],
{
    reveal_strlit("vhd");
    reveal_strlit("vhdl");
    reveal_strlit("v");
    reveal_strlit("vl");
    reveal_strlit("vlg");
    reveal_strlit("vh");
    reveal_strlit("verilog");
    reveal_strlit("sv");
    reveal_strlit("svh");
    reveal_strlit("tb_");
    reveal_strlit("_tb");
    assert("vhd"@ =~= seq!['v', 'h', 'd']);
    assert("vhdl"@ =~= seq!['v', 'h', 'd', 'l']);
    assert("v"@ =~= seq!['v']);
    assert("vl"@ =~= seq!['v', 'l']);
    assert("vlg"@ =~= seq!['v', 'l', 'g']);
    assert("vh"@ =~= seq!['v', 'h']);
    assert("verilog"@ =~= seq!['v', 'e', 'r', 'i', 'l', 'o', 'g']);
    assert("sv"@ =~= seq!['s', 'v']);
    assert("svh"@ =~= seq!['s', 'v', 'h']);
    assert("tb_"@ =~= seq!['t', 'b', '_']);
    assert("_tb"@ =~= seq!['_', 't', 'b']);
}

/// Whether the file holds VHDL, by its extension.
pub fn is_vhdl(file: &str) -> (r: bool)
    ensures
        r == is_vhdl_name(file@),
{
    proof {
        lemma_words();
    }
    let e = extension_of(&chars_of(file));
    spells_word(&e, "vhd") || spells_word(&e, "vhdl")
}

/// Whether the file holds Verilog, by its extension.
pub fn is_verilog(file: &str) -> (r: bool)
    ensures
        r == is_verilog_name(file@),
{
    proof {
        lemma_words();
    }
    let e = extension_of(&chars_of(file));
    spells_word(&e, "v") || spells_word(&e, "vl") || spells_word(&e, "vlg") || spells_word(&e, "vh")
        || spells_word(&e, "verilog")
}

/// Whether the file holds SystemVerilog, by its extension.
pub fn is_systemverilog(file: &str) -> (r: bool)
    ensures
        r == is_systemverilog_name(file@),
{
    proof {
        lemma_words();
    }
    let e = extension_of(&chars_of(file));
    spells_word(&e, "sv") || spells_word(&e, "svh")
}

/// Whether the file holds VHDL for synthesis: VHDL whose name marks no
/// testbench.
pub fn is_rtl(file: &str) -> (r: bool)
    ensures
        r == is_rtl_name(file@),
{
    proof {
        lemma_words();
    }
    if !is_vhdl(file) {
        return false;
    }
    let stem = file_stem_of(&chars_of(file));
    if stem.len() < 3 {
        return true;
    }
    let front = chars_of("tb_");
    let back = chars_of("_tb");
    let begins = spells_at(&stem, 0, &front);
    let ends = spells_at(&stem, stem.len() - 3, &back);
    !(begins || ends)
}

/// The stem of the file's name as text.
pub fn file_stem_string(file: &str) -> (stem: String)
    ensures
        stem@ == file_stem(file@),
{
    string_of(&file_stem_of(&chars_of(file)))
}

/// `glob::Pattern`, a pattern that the `glob` crate has compiled; nothing is known
/// of it but the text it was made from.
#[verifier::external_type_specification]
#[verifier::external_body]
pub struct ExGlobPattern(glob::Pattern);

/// `glob::PatternError`, what the `glob` crate reports of a text that is no pattern.
#[verifier::external_type_specification]
#[verifier::external_body]
pub struct ExGlobPatternError(glob::PatternError);

/// The text that a pattern of the `glob` crate was made from.
pub uninterp spec fn pattern_source(pattern: glob::Pattern) -> Seq<char>;

/// `glob::Pattern::new`: a pattern that comes back keeps the text it was
/// made from. Which texts the crate takes for patterns depends on what
/// counts as a separator of path components, which differs between
/// systems, so nothing is claimed of that.
#[verifier::external_body]
fn compile_pattern(pattern: &str) -> (r: Result<glob::Pattern, glob::PatternError>)
    ensures
        r matches Ok(p) ==> pattern_source(p) == pattern@,
{
    glob::Pattern::new(pattern)
}

/// `glob::Pattern::as_str`: the text that the pattern was made from.
#[verifier::external_body]
fn pattern_text(pattern: &glob::Pattern) -> (s: &str)
    ensures
        s@ == pattern_source(*pattern),
{
    pattern.as_str()
}

/// `glob::Pattern::matches_with`. What counts as a separator of path
/// components differs between systems, so nothing is claimed of the answer.
#[verifier::external_body]
fn pattern_matches(
    pattern: &glob::Pattern,
    path: &str,
    case_sensitive: bool,
    require_literal_separator: bool,
    require_literal_leading_dot: bool,
) -> (matched: bool) {
    pattern.matches_with(
        path,
        glob::MatchOptions { case_sensitive, require_literal_separator, require_literal_leading_dot },
    )
}

/// A named set of files, chosen by a glob pattern.
#[derive(Debug, PartialEq, Eq)]
pub struct Fileset {
    name: String,
    pattern: glob::Pattern,
}

/// The mathematical value of a `Fileset`.
pub struct FilesetView {
    pub name: Seq<char>,
    pub pattern: Seq<char>,
}

impl Fileset {
    /// The mathematical value.
    pub closed spec fn view(&self) -> FilesetView {
        FilesetView { name: self.name@, pattern: pattern_source(self.pattern) }
    }

    /// The set `name` with what the `glob` crate made of a pattern's text:
    /// the set with the pattern, or `None` where the crate took the text for
    /// no pattern.
    pub fn with_pattern(name: &str, compiled: Result<glob::Pattern, glob::PatternError>) -> (r:
        Option<Fileset>)
        ensures
            match compiled {
                Ok(p) => r matches Some(f) && f@ == (FilesetView {
                    name: name@,
                    pattern: pattern_source(p),
                }),
                Err(_) => r is None,
            },
    {
        match compiled {
            Ok(p) => Some(Fileset { name: String::from_str(name), pattern: p }),
            Err(_) => None,
        }
    }

    /// The set `name` of the files that match `pattern`; `None` when the
    /// `glob` crate takes `pattern` for no pattern.
    pub fn new(name: &str, pattern: &str) -> (r: Option<Fileset>)
        ensures
            r matches Some(f) ==> f@ == (FilesetView { name: name@, pattern: pattern@ }),
    {
        Fileset::with_pattern(name, compile_pattern(pattern))
    }

    /// Reads a set from `name=pattern`: the name is what stands before the
    /// first `=`, the pattern what stands behind it. `None` without a `=`,
    /// or when the `glob` crate takes the pattern for none.
    pub fn from_str(s: &str) -> (r: Option<Fileset>)
        ensures
            position_of(s@, '=', 0) >= s@.len() ==> r is None,
            r matches Some(f) ==> f@ == (FilesetView {
                name: s@.subrange(0, position_of(s@, '=', 0)),
                pattern: s@.subrange(position_of(s@, '=', 0) + 1, s@.len() as int),
            }),
    {
        let chars = chars_of(s);
        let at = find_char(&chars, '=', 0);
        if at >= chars.len() {
            return None;
        }
        let name = string_of(&slice_chars(&chars, 0, at));
        let pattern = string_of(&slice_chars(&chars, at + 1, chars.len()));
        Fileset::new(name.as_str(), pattern.as_str())
    }

    /// The set's name.
    pub fn get_name(&self) -> (name: &String)
        ensures
            name@ == self@.name,
    {
        &self.name
    }

    /// The text of the set's pattern.
    pub fn get_pattern(&self) -> (pattern: &str)
        ensures
            pattern@ == self@.pattern,
    {
        pattern_text(&self.pattern)
    }

    /// Whether the pattern matches `file`. Letters match in either case, and
    /// a wildcard also matches separators and leading dots.
    pub fn matches(&self, file: &str) -> (matched: bool) {
        pattern_matches(&self.pattern, file, false, false, false)
    }
}

/// The record of a blueprint for the file `file` in the set `name`: the
/// set's name, the file's stem and the file, with tabs between, and a line
/// feed.
pub open spec fn fileset_record(name: Seq<char>, file: Seq<char>) -> Seq<char> {
    name + seq!['\t'] + file_stem(file) + seq!['\t'] + file + seq!['\n']
}

/// The records for the chosen files: one for each pair of a place in
/// `files` and a place in `sets`, in the order of `picks`.
pub open spec fn fileset_records(
    sets: Seq<FilesetView>,
    files: Seq<Seq<char>>,
    picks: Seq<(int, int)>,
) -> Seq<char>
    decreases picks.len(),
{
    if picks.len() == 0 {
        Seq::empty()
    } else {
        fileset_records(sets, files, picks.drop_last()) + fileset_record(
            sets[picks.last().1].name,
            files[picks.last().0],
        )
    }
}

/// The values of `sets`.
pub open spec fn filesets_view(sets: Seq<Fileset>) -> Seq<FilesetView> {
    Seq::new(sets.len(), |i: int| sets[i]@)
}

/// The texts of `files`.
pub open spec fn strings_view(files: Seq<String>) -> Seq<Seq<char>> {
    Seq::new(files.len(), |i: int| files[i]@)
}

/// The pairs of `picks` as mathematical integers.
pub open spec fn picks_view(picks: Seq<(usize, usize)>) -> Seq<(int, int)> {
    Seq::new(picks.len(), |i: int| (picks[i].0 as int, picks[i].1 as int))
}

/// Every pick names a file and a set.
pub open spec fn are_picks(picks: Seq<(int, int)>, files: int, sets: int) -> bool {
    forall|i: int|
        0 <= i < picks.len() ==> 0 <= (#[trigger] picks[i]).0 < files && 0 <= picks[i].1 < sets
}

/// The picks go through the files one by one and, for each file, through
/// the sets one by one.
pub open spec fn is_file_major(picks: Seq<(int, int)>) -> bool {
    forall|i: int, j: int|
        0 <= i < j < picks.len() ==> (#[trigger] picks[i]).0 < (#[trigger] picks[j]).0 || (
        picks[i].0 == picks[j].0 && picks[i].1 < picks[j].1)
}

/// The picks go through the sets one by one and, for each set, through the
/// files one by one.
pub open spec fn is_set_major(picks: Seq<(int, int)>) -> bool {
    forall|i: int, j: int|
        0 <= i < j < picks.len() ==> (#[trigger] picks[i]).1 < (#[trigger] picks[j]).1 || (
        picks[i].1 == picks[j].1 && picks[i].0 < picks[j].0)
}

/// The answers of `answers` as sequences: one row for each file, with one
/// answer for each set.
pub open spec fn table_view(answers: Seq<Vec<bool>>) -> Seq<Seq<bool>> {
    Seq::new(answers.len(), |f: int| answers[f]@)
}

/// `answers` holds a row for each of `files` files, and each row an answer
/// for each of `sets` sets.
pub open spec fn is_table(answers: Seq<Seq<bool>>, files: int, sets: int) -> bool {
    &&& answers.len() == files
    &&& forall|f: int| 0 <= f < answers.len() ==> (#[trigger] answers[f]).len() == sets
}

/// `answers` holds the answer yes for the file `f` and the set `s`.
pub open spec fn says_yes(answers: Seq<Seq<bool>>, f: int, s: int) -> bool {
    0 <= f < answers.len() && 0 <= s < answers[f].len() && answers[f][s]
}

/// `picks` holds exactly the pairs of a file and one of the first `sets`
/// sets for which `answers` holds the answer yes.
pub open spec fn lists_yes(picks: Seq<(int, int)>, answers: Seq<Seq<bool>>, sets: int) -> bool {
    forall|f: int, s: int|
        #![trigger picks.contains((f, s))]
        #![trigger says_yes(answers, f, s)]
        picks.contains((f, s)) <==> s < sets && says_yes(answers, f, s)
}

/// A sequence with one more item holds what it held, and the item.
pub proof fn lemma_push_contains(picks: Seq<(int, int)>, pick: (int, int), x: (int, int))
    ensures
        picks.push(pick).contains(x) <==> picks.contains(x) || x == pick,
{
    let now = picks.push(pick);
    if now.contains(x) {
        let i = choose|i: int| 0 <= i < now.len() && now[i] == x;
        if i < picks.len() {
            assert(picks[i] == x);
        }
    }
    if picks.contains(x) {
        let i = choose|i: int| 0 <= i < picks.len() && picks[i] == x;
        assert(now[i] == x);
    }
    if x == pick {
        assert(now[picks.len() as int] == x);
    }
}

/// Asks each set about each file: the row of a file holds the answer of
/// each set, in the order of `sets`. The answers are those of the `glob`
/// crate, of which nothing is known here.
pub fn ask_filesets(sets: &Vec<Fileset>, files: &Vec<String>) -> (answers: Vec<Vec<bool>>)
    ensures
        is_table(table_view(answers@), files.len() as int, sets.len() as int),
{
    let mut answers: Vec<Vec<bool>> = Vec::new();
    let mut f: usize = 0;
    while f < files.len()
        invariant
            f <= files.len(),
            is_table(table_view(answers@), f as int, sets.len() as int),
        decreases files.len() - f,
    {
        let mut row: Vec<bool> = Vec::new();
        let mut s: usize = 0;
        while s < sets.len()
            invariant
                f < files.len(),
                s <= sets.len(),
                row.len() == s,
            decreases sets.len() - s,
        {
            row.push(sets[s].matches(files[f].as_str()));
            s += 1;
        }
        let ghost before = table_view(answers@);
        answers.push(row);
        proof {
            let now = table_view(answers@);
            assert forall|g: int| 0 <= g < now.len() implies (#[trigger] now[g]).len()
                == sets.len() by {
                if g < before.len() {
                    assert(now[g] == before[g]);
                }
            }
        }
        f += 1;
    }
    answers
}

/// Lists the pairs of a file and one of the first `sets` sets for which
/// `answers` holds the answer yes: file by file, and set by set for each
/// file.
pub fn pick_by_file(answers: &Vec<Vec<bool>>, sets: usize) -> (picks: Vec<(usize, usize)>)
    ensures
        lists_yes(picks_view(picks@), table_view(answers@), sets as int),
        are_picks(picks_view(picks@), answers.len() as int, sets as int),
        is_file_major(picks_view(picks@)),
{
    let ghost table = table_view(answers@);
    let mut picks: Vec<(usize, usize)> = Vec::new();
    let mut f: usize = 0;
    while f < answers.len()
        invariant
            f <= answers.len(),
            table == table_view(answers@),
            are_picks(picks_view(picks@), f as int, sets as int),
            is_file_major(picks_view(picks@)),
            forall|g: int, t: int|
                #![trigger picks_view(picks@).contains((g, t))]
                #![trigger says_yes(table, g, t)]
                picks_view(picks@).contains((g, t)) <==> g < f && t < sets && says_yes(table, g, t),
        decreases answers.len() - f,
    {
        let mut s: usize = 0;
        while s < sets
            invariant
                f < answers.len(),
                s <= sets,
                table == table_view(answers@),
                are_picks(picks_view(picks@), f + 1, sets as int),
                is_file_major(picks_view(picks@)),
                forall|i: int|
                    0 <= i < picks.len() && (#[trigger] picks_view(picks@)[i]).0 == f
                        ==> picks_view(picks@)[i].1 < s,
                forall|g: int, t: int|
                    #![trigger picks_view(picks@).contains((g, t))]
                    #![trigger says_yes(table, g, t)]
                    picks_view(picks@).contains((g, t)) <==> (g < f && t < sets && says_yes(
                        table,
                        g,
                        t,
                    )) || (g == f && t < s && says_yes(table, g, t)),
            decreases sets - s,
        {
            assert(table[f as int] == answers[f as int]@);
            if s < answers[f].len() && answers[f][s] {
                let ghost before = picks_view(picks@);
                picks.push((f, s));
                proof {
                    let now = picks_view(picks@);
                    assert(now =~= before.push((f as int, s as int)));
                    assert forall|i: int, j: int| 0 <= i < j < now.len() implies (#[trigger] now[i]).0
                        < (#[trigger] now[j]).0 || (now[i].0 == now[j].0 && now[i].1
                        < now[j].1) by {
                        assert(now[i] == before[i]);
                        if j < before.len() {
                            assert(now[j] == before[j]);
                        }
                    }
                    assert forall|g: int, t: int|
                        #![trigger now.contains((g, t))]
                        #![trigger says_yes(table, g, t)]
                        now.contains((g, t)) <==> (g < f && t < sets && says_yes(table, g, t)) || (g
                            == f && t < s + 1 && says_yes(table, g, t)) by {
                        lemma_push_contains(before, (f as int, s as int), (g, t));
                    }
                }
            }
            s += 1;
        }
        f += 1;
    }
    picks
}

/// Lists the pairs of a file and one of the first `sets` sets for which
/// `answers` holds the answer yes: set by set, and file by file for each
/// set.
pub fn pick_by_set(answers: &Vec<Vec<bool>>, sets: usize) -> (picks: Vec<(usize, usize)>)
    ensures
        lists_yes(picks_view(picks@), table_view(answers@), sets as int),
        are_picks(picks_view(picks@), answers.len() as int, sets as int),
        is_set_major(picks_view(picks@)),
{
    let ghost table = table_view(answers@);
    let mut picks: Vec<(usize, usize)> = Vec::new();
    let mut s: usize = 0;
    while s < sets
        invariant
            s <= sets,
            table == table_view(answers@),
            are_picks(picks_view(picks@), answers.len() as int, s as int),
            is_set_major(picks_view(picks@)),
            forall|g: int, t: int|
                #![trigger picks_view(picks@).contains((g, t))]
                #![trigger says_yes(table, g, t)]
                picks_view(picks@).contains((g, t)) <==> t < s && says_yes(table, g, t),
        decreases sets - s,
    {
        let mut f: usize = 0;
        while f < answers.len()
            invariant
                s < sets,
                f <= answers.len(),
                table == table_view(answers@),
                are_picks(picks_view(picks@), answers.len() as int, s + 1),
                is_set_major(picks_view(picks@)),
                forall|i: int|
                    0 <= i < picks.len() && (#[trigger] picks_view(picks@)[i]).1 == s
                        ==> picks_view(picks@)[i].0 < f,
                forall|g: int, t: int|
                    #![trigger picks_view(picks@).contains((g, t))]
                    #![trigger says_yes(table, g, t)]
                    picks_view(picks@).contains((g, t)) <==> (t < s && says_yes(table, g, t)) || (t
                        == s && g < f && says_yes(table, g, t)),
            decreases answers.len() - f,
        {
            assert(table[f as int] == answers[f as int]@);
            if s < answers[f].len() && answers[f][s] {
                let ghost before = picks_view(picks@);
                picks.push((f, s));
                proof {
                    let now = picks_view(picks@);
                    assert(now =~= before.push((f as int, s as int)));
                    assert forall|i: int, j: int| 0 <= i < j < now.len() implies (#[trigger] now[i]).1
                        < (#[trigger] now[j]).1 || (now[i].1 == now[j].1 && now[i].0
                        < now[j].0) by {
                        assert(now[i] == before[i]);
                        if j < before.len() {
                            assert(now[j] == before[j]);
                        }
                    }
                    assert forall|g: int, t: int|
                        #![trigger now.contains((g, t))]
                        #![trigger says_yes(table, g, t)]
                        now.contains((g, t)) <==> (t < s && says_yes(table, g, t)) || (t == s && g
                            < f + 1 && says_yes(table, g, t)) by {
                        lemma_push_contains(before, (f as int, s as int), (g, t));
                    }
                }
            }
            f += 1;
        }
        s += 1;
    }
    picks
}

/// Asks each set about each file and lists the pairs of file and set that
/// match: file by file, and set by set for each file. Which pairs match is
/// the `glob` crate's answer; how the answers are listed is stated of
/// `pick_by_file`.
pub fn match_by_file(sets: &Vec<Fileset>, files: &Vec<String>) -> (picks: Vec<(usize, usize)>)
    ensures
        are_picks(picks_view(picks@), files.len() as int, sets.len() as int),
        is_file_major(picks_view(picks@)),
{
    let answers = ask_filesets(sets, files);
    pick_by_file(&answers, sets.len())
}

/// Asks each set about each file and lists the pairs of file and set that
/// match: set by set, and file by file for each set. Which pairs match is
/// the `glob` crate's answer; how the answers are listed is stated of
/// `pick_by_set`.
pub fn match_by_set(sets: &Vec<Fileset>, files: &Vec<String>) -> (picks: Vec<(usize, usize)>)
    ensures
        are_picks(picks_view(picks@), files.len() as int, sets.len() as int),
        is_set_major(picks_view(picks@)),
{
    let answers = ask_filesets(sets, files);
    pick_by_set(&answers, sets.len())
}

/// Writes the records of the chosen pairs of file and set.
pub fn write_fileset_records(
    sets: &Vec<Fileset>,
    files: &Vec<String>,
    picks: &Vec<(usize, usize)>,
) -> (text: Vec<char>)
    requires
        are_picks(picks_view(picks@), files.len() as int, sets.len() as int),
    ensures
        text@ == fileset_records(filesets_view(sets@), strings_view(files@), picks_view(picks@)),
{
    let ghost sv = filesets_view(sets@);
    let ghost fv = strings_view(files@);
    let ghost pv = picks_view(picks@);
    let mut text: Vec<char> = Vec::new();
    let mut i: usize = 0;
    while i < picks.len()
        invariant
            i <= picks.len(),
            sv == filesets_view(sets@),
            fv == strings_view(files@),
            pv == picks_view(picks@),
            are_picks(pv, files.len() as int, sets.len() as int),
            text@ == fileset_records(sv, fv, pv.take(i as int)),
        decreases picks.len() - i,
    {
        assert(0 <= pv[i as int].0 < files.len() && 0 <= pv[i as int].1 < sets.len());
        let file = &files[picks[i].0];
        let set = &sets[picks[i].1];
        let ghost before = text@;
        append_str(&mut text, set.get_name().as_str());
        text.push('\t');
        let stem = file_stem_of(&chars_of(file.as_str()));
        append_chars(&mut text, &stem);
        text.push('\t');
        append_str(&mut text, file.as_str());
        text.push('\n');
        proof {
            let t = pv.take(i + 1);
            assert(t.drop_last() =~= pv.take(i as int));
            assert(t.last() == pv[i as int]);
            assert(text@ =~= before + fileset_record(sv[pv[i as int].1].name, fv[pv[i as int].0]));
        }
        i += 1;
    }
    proof {
        assert(pv.take(picks.len() as int) =~= pv);
    }
    text
}

} // verus!
