use orbit::graph::GraphError;
use orbit::lang::{DesignUnit, Dialect, Position};
use orbit::plan::{FileUnit, Plan};
use orbit::vhdl::symbols::VHDLParser;
use orbit::vhdl::token::{Keyword, VhdlError, VhdlToken};
use orbit::vhdl::tokenizer::VhdlTokenizer;

fn kinds(s: &str) -> Vec<VhdlToken> {
    VhdlTokenizer::from_source_code(s).into_tokens().into_iter().map(|t| t.take()).collect()
}

fn word(s: &str) -> VhdlToken {
    VhdlToken::Identifier(s.to_string())
}

fn units(s: &str) -> Vec<DesignUnit> {
    VHDLParser::read(s).unwrap().into_symbols()
}

fn edges(unit: &DesignUnit) -> Vec<String> {
    match unit {
        DesignUnit::Architecture { edges, .. } => edges.iter().map(|e| e.to_string()).collect(),
        _ => panic!("no architecture"),
    }
}

fn plan(files: &[(&str, &str)]) -> Result<orbit::plan::Blueprinted, GraphError> {
    let mut all: Vec<FileUnit> = Vec::new();
    for (file, text) in files {
        for unit in VHDLParser::read_lazy(text).into_symbols() {
            all.push(FileUnit { file: file.to_string(), unit });
        }
    }
    Plan::new(None, None, None, None, None).run(&all, &Vec::new(), None)
}

const ADDER: &str = "\
library ieee;
use ieee.std_logic_1164.all;

entity adder is
    generic (N : positive := 8);
    port (
        a, b : in  std_logic_vector(N-1 downto 0);
        cin  : in  std_logic;
        sum  : out std_logic_vector(N downto 0)
    );
end entity adder;

architecture rtl of adder is
    signal carry : std_logic_vector(N downto 0);

    function parity(x : std_logic_vector) return std_logic is
        variable p : std_logic := '0';
    begin
        for i in x'range loop
            p := p xor x(i);
        end loop;
        return p;
    end function parity;
begin
    carry(0) <= cin;
    gen : for i in 0 to N-1 generate
        fa : entity work.full_adder(rtl)
            port map (a => a(i), b => b(i), cin => carry(i), s => sum(i), cout => carry(i+1));
    end generate gen;

    check : process (a, b)
        variable count : integer;
    begin
        if a = b then
            count := 0;
        end if;
    end process check;
end architecture rtl;
";

const ADDER_TB: &str = "\
entity adder_tb is
end entity;

architecture sim of adder_tb is
    component adder
        port (a : in bit; b : mytype; c : out bit);
    end component;
    signal a, b : bit;
begin
    -- dut : entity work.ghost;
    DUT : adder port map (a => a, b => b, c => open);
end sim;
";

#[test]
fn vhdl_tokens_are_told_apart() {
    assert_eq!(
        kinds("ENTITY Adder is -- note\n x <= '1' & \"ab\" & 16#FF# & \\e x\\; end"),
        vec![
            VhdlToken::Keyword(Keyword::Entity),
            word("Adder"),
            VhdlToken::Keyword(Keyword::Is),
            VhdlToken::Comment(" note".to_string()),
            word("x"),
            VhdlToken::Delimiter('<'),
            VhdlToken::Delimiter('='),
            VhdlToken::Literal("'1'".to_string()),
            VhdlToken::Delimiter('&'),
            VhdlToken::Literal("\"ab\"".to_string()),
            VhdlToken::Delimiter('&'),
            VhdlToken::Literal("16#FF#".to_string()),
            VhdlToken::Delimiter('&'),
            word("\\e x\\"),
            VhdlToken::Delimiter(';'),
            VhdlToken::Keyword(Keyword::End),
            VhdlToken::EOF,
        ]
    );
    assert_eq!(
        kinds("signal Process x'event"),
        vec![
            VhdlToken::Keyword(Keyword::Declaration),
            VhdlToken::Keyword(Keyword::Closer),
            word("x"),
            VhdlToken::Delimiter('\''),
            word("event"),
            VhdlToken::EOF,
        ]
    );
}

#[test]
fn vhdl_unclosed_lexemes_are_errors() {
    assert_eq!(VhdlTokenizer::from_str("a /* b").err(), Some(VhdlError::UnclosedComment));
    assert_eq!(VhdlTokenizer::from_str("a \"b").err(), Some(VhdlError::UnclosedString));
    assert_eq!(VhdlTokenizer::from_str("a \\b").err(), Some(VhdlError::UnclosedIdentifier));
    assert!(VhdlTokenizer::from_str("a /* b */ \"c\" \\d\\").is_ok());
    let tokens = VhdlTokenizer::from_source_code("a\n  b").into_tokens();
    assert_eq!(tokens[1].locate(), &Position::place(1, 2));
}

#[test]
fn entity_and_architecture_are_read() {
    let found = units(ADDER);
    assert_eq!(found.len(), 2);
    match &found[0] {
        DesignUnit::Entity { name, ports } => {
            assert_eq!(name.as_str(), "adder");
            assert_eq!(*ports, 3);
            assert_eq!(name.get_position(), &Position::place(3, 7));
        }
        _ => panic!("no entity"),
    }
    match &found[1] {
        DesignUnit::Architecture { name, owner, .. } => {
            assert_eq!(name.as_str(), "rtl");
            assert_eq!(owner.as_str(), "adder");
        }
        _ => panic!("no architecture"),
    }
    assert_eq!(edges(&found[1]), vec!["full_adder"]);
    assert!(!found[0].is_testbench());
    assert!(found[0].is_primary());
    assert!(!found[1].is_primary());
}

#[test]
fn testbench_has_no_ports() {
    let found = units(ADDER_TB);
    assert_eq!(found.len(), 2);
    assert!(found[0].is_testbench());
    assert_eq!(edges(&found[1]), vec!["adder"]);
}

#[test]
fn instances_are_found_in_all_forms() {
    let text = "\
architecture a of e is
    signal s : t;
begin
    u1 : entity work.one;
    u2 : entity lib.pkg.two(rtl) generic map (1) port map (s);
    u3 : component three port map (s);
    u4 : four generic map (2) port map (s);
    u5 : five;
    u6 : one port map (s);
    p  : process begin wait; end process;
    b  : block begin end block;
    s <= t;
    l  : s <= t;
    blk : if c generate
        u7 : entity seven;
    end generate;
end;
";
    let found = units(text);
    assert_eq!(edges(&found[0]), vec!["one", "two", "three", "four", "five", "seven"]);
}

#[test]
fn packages_and_configurations_are_read() {
    let text = "\
package util is
    function f(x : integer) return integer;
    procedure p(x : integer);
end package;

package body util is
    function f(x : integer) return integer is
    begin
        return x;
    end;
    procedure p(x : integer) is
    begin
        null;
    end procedure p;
end package body;

configuration cfg of top is
    for rtl
        for all : sub use entity work.sub(rtl); end for;
    end for;
end configuration cfg;

entity last is end;
";
    let found = units(text);
    assert_eq!(found.len(), 3);
    assert!(matches!(&found[0], DesignUnit::Package { name } if name.as_str() == "util"));
    assert!(
        matches!(&found[1], DesignUnit::Configuration { name, owner } if name.as_str() == "cfg" && owner.as_str() == "top")
    );
    assert!(matches!(&found[2], DesignUnit::Entity { name, ports: 0 } if name.as_str() == "last"));
}

#[test]
fn broken_units_are_errors() {
    assert_eq!(VHDLParser::read("entity is end;").err(), Some(VhdlError::ExpectingIdentifier));
    assert_eq!(
        VHDLParser::read("entity e port (a : in bit); end;").err(),
        Some(VhdlError::ExpectingKeyword(Keyword::Is))
    );
    assert_eq!(
        VHDLParser::read("architecture a is begin end;").err(),
        Some(VhdlError::ExpectingKeyword(Keyword::Of))
    );
    assert_eq!(
        VHDLParser::read("architecture a of is begin end;").err(),
        Some(VhdlError::ExpectingIdentifier)
    );
    assert_eq!(
        VHDLParser::read("entity e is port (a : in bit);").err(),
        Some(VhdlError::ExpectingKeyword(Keyword::End))
    );
    assert_eq!(VHDLParser::read("entity e is \"open").err(), Some(VhdlError::UnclosedString));
    // lazily, what is wrong is passed over and the rest is read
    let lazy = VHDLParser::read_lazy("entity 1 is end; entity good is end; entity open is")
        .into_symbols();
    assert_eq!(lazy.len(), 1);
    assert_eq!(lazy[0].get_name().as_str(), "good");
}

#[test]
fn single_entity_without_bench_is_ambiguous() {
    let r = plan(&[("/p/adder.vhd", "entity adder is port (a : in bit); end;")]);
    assert_eq!(r, Err(GraphError::AmbiguousBench(Vec::new())));
}

#[test]
fn adder_and_its_bench_are_planned() {
    let out = plan(&[
        ("/p/adder.vhd", ADDER),
        ("/p/adder_tb.vhd", ADDER_TB),
        ("/p/full_adder.vhd", "entity full_adder is port (a : in bit); end;\narchitecture rtl of full_adder is begin end;"),
        ("/p/spare.vhd", "entity spare is port (a : in bit); end;"),
    ])
    .unwrap();
    assert_eq!(
        out.blueprint,
        "VHDL-RTL\twork\t/p/full_adder.vhd\nVHDL-RTL\twork\t/p/adder.vhd\nVHDL-SIM\twork\t/p/adder_tb.vhd\n"
    );
    assert_eq!(out.env, "ORBIT_TOP=adder\nORBIT_BENCH=adder_tb\n");
}

#[test]
fn pair_of_top_and_bench_gives_two_lines() {
    let out = plan(&[
        ("/p/adder.vhd", "entity adder is port (a : in bit); end;\narchitecture rtl of adder is begin end;"),
        ("/p/adder_tb.vhd", ADDER_TB),
    ])
    .unwrap();
    assert_eq!(out.blueprint, "VHDL-RTL\twork\t/p/adder.vhd\nVHDL-SIM\twork\t/p/adder_tb.vhd\n");
    assert_eq!(out.env, "ORBIT_TOP=adder\nORBIT_BENCH=adder_tb\n");
}

#[test]
fn entities_in_a_circle_are_cyclic() {
    let a = "entity a is port (x : in bit); end;\narchitecture r of a is begin u : entity work.b; end;";
    let b = "entity b is port (x : in bit); end;\narchitecture r of b is begin u : entity work.a; end;";
    let tb = "entity tb is end;\narchitecture s of tb is begin dut : entity work.a; end;";
    assert_eq!(
        plan(&[("/p/a.vhd", a), ("/p/b.vhd", b), ("/p/tb.vhd", tb)]),
        Err(GraphError::CyclicDesign)
    );
}

#[test]
fn bench_with_two_units_has_an_ambiguous_top() {
    let x = "entity x is port (a : in bit); end;";
    let y = "entity y is port (a : in bit); end;";
    let tb = "entity tb is end;\narchitecture s of tb is begin u1 : entity work.x; u2 : entity work.Y; end;";
    assert_eq!(
        plan(&[("/p/tb.vhd", tb), ("/p/x.vhd", x), ("/p/y.vhd", y)]),
        Err(GraphError::AmbiguousTop(vec![1, 2]))
    );
}

#[test]
fn vhdl_names_have_their_language_and_place() {
    let text = "entity top is\nend;\narchitecture sim of top is\nbegin\n  u0: entity work.sub;\n  u1: entity work.sub;\nend;\npackage p is\nend;\n";
    let found = units(text);
    assert_eq!(found.len(), 3);
    match &found[0] {
        DesignUnit::Entity { name, .. } => {
            assert_eq!(name.get_dialect(), Dialect::Vhdl);
            assert_eq!(name.get_position(), &Position::place(0, 7));
        }
        _ => panic!("no entity"),
    }
    match &found[1] {
        DesignUnit::Architecture { name, owner, edges } => {
            assert_eq!(name.as_str(), "sim");
            assert_eq!(name.get_dialect(), Dialect::Vhdl);
            assert_eq!(name.get_position(), &Position::place(2, 13));
            assert_eq!(owner.as_str(), "top");
            assert_eq!(owner.get_dialect(), Dialect::Vhdl);
            assert_eq!(owner.get_position(), &Position::place(2, 20));
            assert_eq!(edges.len(), 1);
            assert_eq!(edges[0].as_str(), "sub");
            assert_eq!(edges[0].get_dialect(), Dialect::Vhdl);
            assert_eq!(edges[0].get_position(), &Position::place(4, 18));
        }
        _ => panic!("no architecture"),
    }
    match &found[2] {
        DesignUnit::Package { name } => {
            assert_eq!(name.as_str(), "p");
            assert_eq!(name.get_dialect(), Dialect::Vhdl);
            assert_eq!(name.get_position(), &Position::place(7, 8));
        }
        _ => panic!("no package"),
    }
}
