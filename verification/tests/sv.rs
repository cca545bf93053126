use orbit::lang::{DesignUnit, Dialect, Position};
use orbit::plan::{FileUnit, Plan};
use orbit::sv::symbols::{
    into_tokens, statement_to_string, SystemVerilogParser, SystemVerilogSymbol,
};
use orbit::sv::token::{Keyword, Operator, SystemVerilogError, SystemVerilogToken, Token};
use orbit::sv::tokenizer::{tokenize, SystemVerilogTokenizer};

fn kinds(s: &str) -> Vec<SystemVerilogToken> {
    into_tokens(SystemVerilogTokenizer::from_source_code(s).into_tokens())
}

fn word(s: &str) -> SystemVerilogToken {
    SystemVerilogToken::Identifier(s.to_string())
}

fn op(o: Operator) -> SystemVerilogToken {
    SystemVerilogToken::Operator(o)
}

fn modules(s: &str) -> Vec<SystemVerilogSymbol> {
    SystemVerilogParser::read_lazy(s).into_symbols()
}

fn refs(symbol: &SystemVerilogSymbol) -> Vec<String> {
    symbol.get_refs().iter().map(|r| r.to_string()).collect()
}

#[test]
fn empty_text_is_the_end_token() {
    assert_eq!(kinds(""), vec![SystemVerilogToken::EOF]);
    assert_eq!(kinds(" \n\t \r\n"), vec![SystemVerilogToken::EOF]);
}

#[test]
fn tokens_are_told_apart() {
    assert_eq!(
        kinds("module m #(8'hFF) (a, \\b.c ); `define X \"s\\\"t\" $display endmodule"),
        vec![
            SystemVerilogToken::Keyword(Keyword::Module),
            word("m"),
            op(Operator::Pound),
            op(Operator::ParenL),
            SystemVerilogToken::Number("8'hFF".to_string()),
            op(Operator::ParenR),
            op(Operator::ParenL),
            word("a"),
            op(Operator::Comma),
            word("b.c"),
            op(Operator::ParenR),
            op(Operator::Semicolon),
            SystemVerilogToken::Directive("define".to_string()),
            word("X"),
            SystemVerilogToken::StringLiteral("s\\\"t".to_string()),
            word("$display"),
            SystemVerilogToken::Keyword(Keyword::Endmodule),
            SystemVerilogToken::EOF,
        ]
    );
}

#[test]
fn reserved_words_are_no_names() {
    assert_eq!(
        kinds("wire wires macromodule always_ff input2"),
        vec![
            SystemVerilogToken::Reserved("wire".to_string()),
            word("wires"),
            SystemVerilogToken::Keyword(Keyword::Macromodule),
            SystemVerilogToken::Reserved("always_ff".to_string()),
            word("input2"),
            SystemVerilogToken::EOF,
        ]
    );
}

#[test]
fn comments_are_tokens() {
    assert_eq!(
        kinds("a // to the end\nb /* over\nlines */ c"),
        vec![
            word("a"),
            SystemVerilogToken::Comment(" to the end".to_string()),
            word("b"),
            SystemVerilogToken::Comment(" over\nlines ".to_string()),
            word("c"),
            SystemVerilogToken::EOF,
        ]
    );
}

#[test]
fn attribute_marks_are_operators() {
    assert_eq!(
        kinds("(* keep *) @(*) (*)"),
        vec![
            op(Operator::AttrL),
            word("keep"),
            op(Operator::AttrR),
            op(Operator::Other('@')),
            op(Operator::ParenL),
            op(Operator::Other('*')),
            op(Operator::ParenR),
            op(Operator::ParenL),
            op(Operator::Other('*')),
            op(Operator::ParenR),
            SystemVerilogToken::EOF,
        ]
    );
}

#[test]
fn places_count_lines_and_columns() {
    let tokens = SystemVerilogTokenizer::from_source_code("a\n  bc /* x\n y */ d\n").into_tokens();
    let places: Vec<Position> = tokens.iter().map(|t| *t.locate()).collect();
    assert_eq!(
        places,
        vec![
            Position::place(0, 0),
            Position::place(1, 2),
            Position::place(1, 5),
            Position::place(2, 6),
            Position::place(3, 0),
        ]
    );
    assert_eq!(Position::new(), Position::place(0, 0));
    let last = tokens.into_iter().last().unwrap();
    assert_eq!(last.into_position(), Position::place(3, 0));
}

#[test]
fn unclosed_lexemes_are_errors() {
    let chars: Vec<char> = "a /* never closed".chars().collect();
    let out = tokenize(&chars);
    assert_eq!(out.len(), 3);
    assert_eq!(out[1], Err(SystemVerilogError::UnclosedComment));
    assert_eq!(
        SystemVerilogTokenizer::from_str("a /* never closed").err(),
        Some(SystemVerilogError::UnclosedComment)
    );
    assert_eq!(
        SystemVerilogTokenizer::from_str("x = \"open").err(),
        Some(SystemVerilogError::UnclosedString)
    );
    assert_eq!(kinds("a /* never closed"), vec![word("a"), SystemVerilogToken::EOF]);
    assert!(SystemVerilogTokenizer::from_str("a /* closed */").is_ok());
}

#[test]
fn module_is_read_with_ports_and_instances() {
    let text = "\
// an adder with a carry
(* synthesis *)
module adder #(parameter N = 8, M = f(1, 2)) (
    input  logic [N-1:0] a, b,
    output logic [N:0] sum
);
    wire c;
    half_adder u0 (a[0], b[0], c);
    half_adder u1 (.x(a[1]), .y(b[1]));
    full_adder #(.W(2)) u2 (a, b, c);
    assign sum = a + b;
    always_comb begin
        if (c) mux2 u3 (a, b);
    end
endmodule
";
    let symbols = modules(text);
    assert_eq!(symbols.len(), 1);
    let m = symbols[0].as_module().unwrap();
    assert_eq!(m.get_name().as_str(), "adder");
    assert_eq!(m.get_ports(), 3);
    assert_eq!(m.get_position(), &Position::place(2, 0));
    assert_eq!(symbols[0].get_position(), &Position::place(2, 0));
    assert_eq!(symbols[0].as_name().unwrap().as_str(), "adder");
    assert_eq!(refs(&symbols[0]), vec!["half_adder", "full_adder"]);
}

#[test]
fn module_without_ports_is_a_testbench() {
    let symbols = modules("module tb;\n  adder dut (a, b);\nendmodule\nmodule tb2 ();\nendmodule\n");
    assert_eq!(symbols.len(), 2);
    assert_eq!(symbols[0].as_module().unwrap().get_ports(), 0);
    assert_eq!(symbols[1].as_module().unwrap().get_ports(), 0);
    assert!(symbols[0].to_unit().is_testbench());
    assert_eq!(refs(&symbols[0]), vec!["adder"]);
    assert_eq!(refs(&symbols[1]), Vec::<String>::new());
}

#[test]
fn lazy_reading_passes_over_what_is_wrong() {
    let text = "module good (a); endmodule\nmodule 4bad; endmodule\nmodule open (b);\n";
    let symbols = modules(text);
    assert_eq!(symbols.len(), 1);
    assert_eq!(symbols[0].as_name().unwrap().as_str(), "good");
    assert_eq!(
        SystemVerilogParser::read(text).err(),
        Some(SystemVerilogError::ExpectingIdentifier)
    );
    assert_eq!(
        SystemVerilogParser::read("module open (b);\n").err(),
        Some(SystemVerilogError::ExpectingKeyword(Keyword::Endmodule))
    );
}

#[test]
fn attribute_has_to_be_closed() {
    assert_eq!(
        SystemVerilogParser::read("(* keep module m; endmodule").err(),
        Some(SystemVerilogError::ExpectingOperator(Operator::AttrR))
    );
    assert_eq!(modules("(* keep module m; endmodule").len(), 0);
    let closed = SystemVerilogParser::read("(* keep *) module m; endmodule").unwrap();
    assert_eq!(closed.into_symbols().len(), 1);
}

#[test]
fn strict_reading_leaves_comments_out() {
    let text = "module m; // half_adder u0 (a);\n /* x */ sub /* y */ u1 (a);\nendmodule";
    let strict = SystemVerilogParser::read(text).unwrap().into_symbols();
    assert_eq!(refs(&strict[0]), vec!["sub"]);
    assert_eq!(
        SystemVerilogParser::read("module m; endmodule /* open").err(),
        Some(SystemVerilogError::UnclosedComment)
    );
}

#[test]
fn parse_reads_tokens_made_by_hand() {
    let tokens = vec![
        Token::new(SystemVerilogToken::Keyword(Keyword::Macromodule), Position::place(4, 2)),
        Token::new(SystemVerilogToken::Reserved("automatic".to_string()), Position::place(4, 14)),
        Token::new(SystemVerilogToken::Identifier("m".to_string()), Position::place(4, 24)),
        Token::new(SystemVerilogToken::Operator(Operator::Semicolon), Position::place(4, 25)),
        Token::new(SystemVerilogToken::Keyword(Keyword::Endmodule), Position::place(5, 0)),
    ];
    let out = SystemVerilogParser::parse(tokens);
    assert_eq!(out.len(), 1);
    let symbol = out.into_iter().next().unwrap().unwrap();
    assert_eq!(symbol.as_name().unwrap().as_str(), "m");
    assert_eq!(symbol.get_position(), &Position::place(4, 2));
}

#[test]
fn statement_is_written_as_a_line() {
    let stmt = SystemVerilogTokenizer::from_source_code(
        "(* keep *) wire [7:0] x = `W'hF0; // note\nmodule m (\"s\", y);",
    )
    .into_tokens();
    assert_eq!(
        statement_to_string(&stmt),
        "(* keep *) wire [ 7 : 0 ] x = `W ' hF0 ; /* note*/ module m ( \"s\" , y ) ;  "
    );
    assert_eq!(statement_to_string(&Vec::new()), "");
    assert_eq!(SystemVerilogToken::Keyword(Keyword::Endmodule).to_string(), "endmodule");
}

#[test]
fn modules_are_planned() {
    let mut units: Vec<FileUnit> = Vec::new();
    for (file, text) in [
        ("/p/adder.sv", "module adder (input a, output b); half u (a, b); endmodule"),
        ("/p/adder_tb.sv", "module adder_tb; adder dut (x, y); endmodule"),
        ("/p/half.v", "module half (input a, output b); assign b = a; endmodule"),
        ("/p/unused.sv", "module unused (input a); endmodule"),
    ] {
        for symbol in SystemVerilogParser::read(text).unwrap().into_symbols() {
            units.push(FileUnit { file: file.to_string(), unit: symbol.to_unit() });
        }
    }
    assert!(matches!(units[0].unit, DesignUnit::Module { .. }));
    let out = Plan::new(None, None, None, None, None).run(&units, &Vec::new(), None).unwrap();
    assert_eq!((out.top, out.bench), (0, 1));
    assert_eq!(out.order, vec![2, 0, 1]);
    assert_eq!(
        out.blueprint,
        "VLOG\twork\t/p/half.v\nSYSV\twork\t/p/adder.sv\nSYSV\twork\t/p/adder_tb.sv\n"
    );
    assert_eq!(out.env, "ORBIT_TOP=adder\nORBIT_BENCH=adder_tb\n");
}

#[test]
fn module_names_have_their_language_and_place() {
    let text = "module top;\n  sub u0 ();\n  sub u1 ();\n  other #(2) u2 ();\nendmodule\n";
    let symbols = modules(text);
    assert_eq!(symbols.len(), 1);
    let name = symbols[0].as_name().unwrap();
    assert_eq!(name.as_str(), "top");
    assert_eq!(name.get_dialect(), Dialect::SystemVerilog);
    assert_eq!(name.get_position(), &Position::place(0, 7));
    let refs = symbols[0].get_refs();
    assert_eq!(refs.len(), 2);
    assert_eq!(refs[0].as_str(), "sub");
    assert_eq!(refs[0].get_dialect(), Dialect::SystemVerilog);
    assert_eq!(refs[0].get_position(), &Position::place(1, 2));
    assert_eq!(refs[1].as_str(), "other");
    assert_eq!(refs[1].get_dialect(), Dialect::SystemVerilog);
    assert_eq!(refs[1].get_position(), &Position::place(3, 2));
    match symbols[0].to_unit() {
        DesignUnit::Module { name, ports, edges } => {
            assert_eq!(name.get_dialect(), Dialect::SystemVerilog);
            assert_eq!(name.get_position(), &Position::place(0, 7));
            assert_eq!(ports, 0);
            assert_eq!(edges.len(), 2);
            assert_eq!(edges[1].get_dialect(), Dialect::SystemVerilog);
            assert_eq!(edges[1].get_position(), &Position::place(3, 2));
        }
        _ => panic!("no module"),
    }
}
