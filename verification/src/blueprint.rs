//! The blueprint: the list of files that a build tool is handed, one
//! record a line.

use vstd::prelude::*;
use crate::fileset::{
    is_rtl, is_rtl_name, is_systemverilog, is_systemverilog_name, is_verilog, is_verilog_name,
    is_vhdl, is_vhdl_name,
};
use crate::text::{append_str, chars_of, lower_code, lower_code_of, string_of};

verus! {

/// The format of a blueprint file.
#[derive(Debug, Clone, Copy, PartialEq, Eq, Structural)]
pub enum Scheme {
    /// Values separated by tabs.
    Tsv,
}

impl Default for Scheme {
    fn default() -> (s: Self)
        ensures
            s == Scheme::Tsv,
    {
        Scheme::Tsv
    }
}

/// Whether `s` spells `tsv`, in either case.
pub open spec fn spells_tsv(s: Seq<char>) -> bool {
    s.len() == 3 && lower_code(s[0]) == 't' as int && lower_code(s[1]) == 's' as int && lower_code(
        s[2],
    ) == 'v' as int
}

impl Scheme {
    /// The name of the format.
    pub fn to_string(&self) -> (s: String)
        ensures
            s@ == "tsv"@,
    {
        match self {
            Scheme::Tsv => String::from_str("tsv"),
        }
    }

    /// Reads the name of a format, in either case; for a name that is not
    /// known the message of the error names it.
    pub fn from_str(s: &str) -> (r: Result<Scheme, String>)
        ensures
            match r {
                Ok(_) => spells_tsv(s@),
                Err(message) => !spells_tsv(s@) && message@ == "unknown file format: "@ + s@,
            },
    {
        let c = chars_of(s);
        if c.len() == 3 && lower_code_of(c[0]) == 116 && lower_code_of(c[1]) == 115 && lower_code_of(
            c[2],
        ) == 118 {
            Ok(Scheme::Tsv)
        } else {
            Err(String::from_str("unknown file format: ").concat(s))
        }
    }
}

/// A source file and the library it is compiled into.
#[derive(Debug, PartialEq, Eq)]
pub struct IpFileNode {
    file: String,
    library: String,
}

/// The mathematical value of an `IpFileNode`.
pub struct IpFileNodeView {
    pub file: Seq<char>,
    pub library: Seq<char>,
}

impl IpFileNode {
    /// The mathematical value.
    pub closed spec fn view(&self) -> IpFileNodeView {
        IpFileNodeView { file: self.file@, library: self.library@ }
    }

    /// The source file `file` of the library `library`.
    pub fn new(file: String, library: String) -> (node: IpFileNode)
        ensures
            node@ == (IpFileNodeView { file: file@, library: library@ }),
    {
        IpFileNode { file, library }
    }

    /// The file.
    pub fn get_file(&self) -> (file: &String)
        ensures
            file@ == self@.file,
    {
        &self.file
    }

    /// The library.
    pub fn get_library(&self) -> (library: &String)
        ensures
            library@ == self@.library,
    {
        &self.library
    }
}

/// One step of a blueprint.
#[derive(Debug, PartialEq, Eq)]
pub enum Instruction<'a> {
    /// A source file of a hardware description.
    Hdl(&'a IpFileNode),
    /// Another file: the key of its set, its library and the file.
    Auxiliary(String, String, String),
}

/// The mathematical value of an `Instruction`.
pub enum InstructionView {
    Hdl(IpFileNodeView),
    Auxiliary(Seq<char>, Seq<char>, Seq<char>),
}

/// Whether the file holds a hardware description, by its extension.
pub open spec fn is_hdl_name(file: Seq<char>) -> bool {
    is_verilog_name(file) || is_vhdl_name(file) || is_systemverilog_name(file)
}

/// The set that a record names for the source file `file`: by its
/// extension and, for a VHDL file, by whether its name is that of a
/// testbench.
pub open spec fn source_set(file: Seq<char>) -> Seq<char> {
    if is_verilog_name(file) {
        "VLOG"@
    } else if is_systemverilog_name(file) {
        "SYSV"@
    } else if is_rtl_name(file) {
        "VHDL-RTL"@
    } else {
        "VHDL-SIM"@
    }
}

/// The set that a record names for the source file `file`.
pub fn source_set_of(file: &str) -> (set: &'static str)
    ensures
        set@ == source_set(file@),
{
    if is_verilog(file) {
        "VLOG"
    } else if is_systemverilog(file) {
        "SYSV"
    } else if is_rtl(file) {
        "VHDL-RTL"
    } else {
        "VHDL-SIM"
    }
}

/// Three values with tabs between.
pub open spec fn record(a: Seq<char>, b: Seq<char>, c: Seq<char>) -> Seq<char> {
    a + seq!['\t'] + b + seq!['\t'] + c
}

/// The record of a step: set, library and file.
pub open spec fn instruction_text(step: InstructionView) -> Seq<char> {
    match step {
        InstructionView::Hdl(node) => record(source_set(node.file), node.library, node.file),
        InstructionView::Auxiliary(key, library, file) => record(key, library, file),
    }
}

/// Whether a record can be written for the step: a source file has to be
/// one by its extension.
pub open spec fn is_writable(step: InstructionView) -> bool {
    step matches InstructionView::Hdl(node) ==> is_hdl_name(node.file)
}

fn write_record(a: &str, b: &str, c: &str) -> (s: String)
    ensures
        s@ == record(a@, b@, c@),
{
    let mut text: Vec<char> = Vec::new();
    append_str(&mut text, a);
    text.push('\t');
    append_str(&mut text, b);
    text.push('\t');
    append_str(&mut text, c);
    assert(text@ =~= record(a@, b@, c@));
    string_of(&text)
}

impl<'a> Instruction<'a> {
    /// The mathematical value.
    pub open spec fn view(&self) -> InstructionView {
        match self {
            Instruction::Hdl(node) => InstructionView::Hdl(node@),
            Instruction::Auxiliary(key, library, file) => InstructionView::Auxiliary(
                key@,
                library@,
                file@,
            ),
        }
    }

    /// The record of the step in the format `format`.
    pub fn write(&self, format: &Scheme) -> (s: String)
        requires
            is_writable(self@),
        ensures
            s@ == instruction_text(self@),
    {
        match format {
            Scheme::Tsv => match self {
                Instruction::Hdl(node) => {
                    let file = node.get_file().as_str();
                    write_record(source_set_of(file), node.get_library().as_str(), file)
                },
                Instruction::Auxiliary(key, library, file) => write_record(
                    key.as_str(),
                    library.as_str(),
                    file.as_str(),
                ),
            },
        }
    }

    /// Whether a record can be written for the step.
    pub fn can_write(&self) -> (r: bool)
        ensures
            r == is_writable(self@),
    {
        match self {
            Instruction::Hdl(node) => {
                let file = node.get_file().as_str();
                is_verilog(file) || is_vhdl(file) || is_systemverilog(file)
            },
            Instruction::Auxiliary(_, _, _) => true,
        }
    }
}

/// The values of `steps`.
pub open spec fn steps_view(steps: Seq<Instruction>) -> Seq<InstructionView> {
    Seq::new(steps.len(), |i: int| steps[i]@)
}

/// The records of `steps`, each with a line feed behind it.
pub open spec fn blueprint_text(steps: Seq<InstructionView>) -> Seq<char>
    decreases steps.len(),
{
    if steps.len() == 0 {
        Seq::empty()
    } else {
        blueprint_text(steps.drop_last()) + instruction_text(steps.last()) + seq!['\n']
    }
}

/// The steps of a build in order, and the format they are written in.
#[derive(Debug, PartialEq, Eq)]
pub struct Blueprint<'a> {
    scheme: Scheme,
    steps: Vec<Instruction<'a>>,
}

impl<'a> Default for Blueprint<'a> {
    fn default() -> (b: Self)
        ensures
            b.spec_steps().len() == 0,
            b.spec_scheme() == Scheme::Tsv,
    {
        let b = Blueprint { scheme: Scheme::Tsv, steps: Vec::new() };
        assert(b.spec_steps() =~= Seq::empty());
        b
    }
}

impl<'a> Blueprint<'a> {
    /// The steps.
    pub closed spec fn spec_steps(&self) -> Seq<InstructionView> {
        steps_view(self.steps@)
    }

    /// The format.
    pub closed spec fn spec_scheme(&self) -> Scheme {
        self.scheme
    }

    /// Every step can be written.
    pub open spec fn wf(&self) -> bool {
        forall|i: int|
            0 <= i < self.spec_steps().len() ==> is_writable(#[trigger] self.spec_steps()[i])
    }

    /// The blueprint without steps in the format `scheme`.
    pub fn new(scheme: Scheme) -> (b: Self)
        ensures
            b.spec_steps() == Seq::<InstructionView>::empty(),
            b.spec_scheme() == scheme,
            b.wf(),
    {
        let b = Blueprint { scheme, steps: Vec::new() };
        assert(b.spec_steps() =~= Seq::empty());
        b
    }

    /// The name of the blueprint's file.
    pub fn get_filename(&self) -> (name: String)
        ensures
            name@ == "blueprint.tsv"@,
    {
        String::from_str(
            match self.scheme {
                Scheme::Tsv => "blueprint.tsv",
            },
        )
    }

    /// Adds the next step `instr` to the blueprint.
    pub fn add(&mut self, instr: Instruction<'a>)
        ensures
            final(self).spec_steps() == old(self).spec_steps().push(instr@),
            final(self).spec_scheme() == old(self).spec_scheme(),
    {
        self.steps.push(instr);
        assert(self.spec_steps() =~= old(self).spec_steps().push(instr@));
    }

    /// The number of steps.
    pub fn len(&self) -> (n: usize)
        ensures
            n == self.spec_steps().len(),
    {
        self.steps.len()
    }

    /// Whether every step can be written.
    pub fn is_writable(&self) -> (r: bool)
        ensures
            r == self.wf(),
    {
        let ghost sv = self.spec_steps();
        let mut i: usize = 0;
        while i < self.steps.len()
            invariant
                i <= self.steps.len(),
                sv == self.spec_steps(),
                forall|j: int| 0 <= j < i ==> is_writable(#[trigger] sv[j]),
            decreases self.steps.len() - i,
        {
            assert(sv[i as int] == self.steps[i as int]@);
            if !self.steps[i].can_write() {
                return false;
            }
            i += 1;
        }
        true
    }

    /// The text of the blueprint's file: the record of each step, in
    /// order, each on a line of its own.
    pub fn data(&self) -> (text: String)
        requires
            self.wf(),
        ensures
            text@ == blueprint_text(self.spec_steps()),
    {
        let ghost sv = self.spec_steps();
        let mut text: Vec<char> = Vec::new();
        let mut i: usize = 0;
        assert(sv.take(0) =~= Seq::empty());
        while i < self.steps.len()
            invariant
                i <= self.steps.len(),
                sv == self.spec_steps(),
                self.wf(),
                text@ == blueprint_text(sv.take(i as int)),
            decreases self.steps.len() - i,
        {
            assert(is_writable(sv[i as int]));
            let line = self.steps[i].write(&self.scheme);
            let ghost before = text@;
            append_str(&mut text, line.as_str());
            text.push('\n');
            proof {
                let next = sv.take(i + 1);
                assert(next.drop_last() =~= sv.take(i as int));
                assert(next.last() == sv[i as int]);
                assert(text@ =~= before + instruction_text(sv[i as int]) + seq!['\n']);
            }
            i += 1;
        }
        proof {
            assert(sv.take(self.steps.len() as int) =~= sv);
        }
        string_of(&text)
    }
}

} // verus!
