use orbit::fileset::{
    ask_filesets, file_stem_string, is_rtl, is_systemverilog, is_verilog, is_vhdl, match_by_file,
    match_by_set, pick_by_file, pick_by_set, write_fileset_records, Fileset,
};

#[test]
fn languages_are_told_by_extension() {
    assert!(is_vhdl("/p/a.vhd"));
    assert!(is_vhdl("a.VHDL"));
    assert!(!is_vhdl("a.vhd.bak"));
    assert!(!is_vhdl("vhd"));
    assert!(!is_vhdl("/p.vhd/readme"));
    assert!(is_verilog("m.v"));
    assert!(is_verilog("m.vh"));
    assert!(is_verilog("m.Verilog"));
    assert!(!is_verilog("m.sv"));
    assert!(is_systemverilog("m.sv"));
    assert!(is_systemverilog("m.SVH"));
    assert!(!is_systemverilog("m.v"));
}

#[test]
fn testbench_names_are_no_rtl() {
    assert!(is_rtl("/p/adder.vhd"));
    assert!(is_rtl("/p/tb.vhd"));
    assert!(is_rtl("/p/stb_x.vhd"));
    assert!(!is_rtl("/p/adder_tb.vhd"));
    assert!(!is_rtl("/p/tb_adder.vhd"));
    assert!(!is_rtl("/p/TB_adder.VHD"));
    assert!(!is_rtl("/p/adder_TB.vhdl"));
    assert!(!is_rtl("/p/adder.v"));
    assert!(!is_rtl("/tb_dir/adder.txt"));
    assert!(is_rtl("/tb_dir/adder.vhd"));
}

#[test]
fn stem_is_the_name_without_extension() {
    assert_eq!(file_stem_string("/p/q/adder.vhd"), "adder");
    assert_eq!(file_stem_string("adder.tar.gz"), "adder.tar");
    assert_eq!(file_stem_string("/p/.hidden"), ".hidden");
    assert_eq!(file_stem_string("/p/plain"), "plain");
    assert_eq!(file_stem_string("/p/dot."), "dot");
    assert_eq!(file_stem_string("/p/"), "");
}

#[test]
fn fileset_needs_a_glob_pattern() {
    assert!(Fileset::new("bad", "a[").is_none());
    assert!(Fileset::new("bad", "a***b").is_none());
    let set = Fileset::new("PINS", "*.xdc").unwrap();
    assert_eq!(set.get_name(), "PINS");
    assert_eq!(set.get_pattern(), "*.xdc");
}

#[test]
fn fileset_matches_in_either_case() {
    let set = Fileset::new("PINS", "*.xdc").unwrap();
    assert!(set.matches("/p/top.xdc"));
    assert!(set.matches("/p/TOP.XDC"));
    assert!(!set.matches("/p/top.xdc.bak"));
    let one = Fileset::new("one", "/p/?.txt").unwrap();
    assert!(one.matches("/p/a.txt"));
    assert!(!one.matches("/p/ab.txt"));
}

#[test]
fn matches_are_listed_in_both_orders() {
    let sets = vec![Fileset::new("B", "*b*").unwrap(), Fileset::new("A", "*a*").unwrap()];
    let files = vec!["ab".to_string(), "c".to_string(), "a".to_string(), "b".to_string()];
    assert_eq!(match_by_file(&sets, &files), vec![(0, 0), (0, 1), (2, 1), (3, 0)]);
    assert_eq!(match_by_set(&sets, &files), vec![(0, 0), (3, 0), (0, 1), (2, 1)]);
}

#[test]
fn records_follow_the_picks() {
    let sets = vec![Fileset::new("DOC", "*.md").unwrap()];
    let files = vec!["/p/readme.md".to_string(), "/p/notes.md".to_string()];
    let text: String = write_fileset_records(&sets, &files, &vec![(1, 0), (0, 0)]).into_iter().collect();
    assert_eq!(text, "DOC\tnotes\t/p/notes.md\nDOC\treadme\t/p/readme.md\n");
}

#[test]
fn a_set_keeps_the_pattern_it_is_given() {
    let set = Fileset::with_pattern("DOC", glob::Pattern::new("docs/*.md")).unwrap();
    assert_eq!(set.get_name(), "DOC");
    assert_eq!(set.get_pattern(), "docs/*.md");
    assert!(Fileset::with_pattern("DOC", glob::Pattern::new("a[")).is_none());
}

#[test]
fn a_set_is_read_from_name_and_pattern() {
    let set = Fileset::from_str("PINS=*.xdc").unwrap();
    assert_eq!(set.get_name(), "PINS");
    assert_eq!(set.get_pattern(), "*.xdc");
    let set = Fileset::from_str("K=a=b").unwrap();
    assert_eq!(set.get_name(), "K");
    assert_eq!(set.get_pattern(), "a=b");
    let set = Fileset::from_str("=x").unwrap();
    assert_eq!(set.get_name(), "");
    assert_eq!(set.get_pattern(), "x");
    assert!(Fileset::from_str("PINS").is_none());
    assert!(Fileset::from_str("").is_none());
    assert!(Fileset::from_str("PINS=a[").is_none());
}

#[test]
fn each_file_has_an_answer_of_each_set() {
    let sets = vec![Fileset::new("B", "*b*").unwrap(), Fileset::new("A", "*a*").unwrap()];
    let files = vec!["ab".to_string(), "c".to_string(), "a".to_string(), "b".to_string()];
    assert_eq!(
        ask_filesets(&sets, &files),
        vec![vec![true, true], vec![false, false], vec![false, true], vec![true, false]]
    );
    assert_eq!(ask_filesets(&sets, &vec![]), Vec::<Vec<bool>>::new());
    assert_eq!(ask_filesets(&vec![], &files), vec![Vec::<bool>::new(); 4]);
}

#[test]
fn yes_answers_are_listed_file_by_file() {
    let answers = vec![vec![true, true], vec![false, false], vec![false, true], vec![true, false]];
    assert_eq!(pick_by_file(&answers, 2), vec![(0, 0), (0, 1), (2, 1), (3, 0)]);
    assert_eq!(pick_by_file(&answers, 1), vec![(0, 0), (3, 0)]);
    assert_eq!(pick_by_file(&answers, 0), vec![]);
    assert_eq!(pick_by_file(&vec![], 2), vec![]);
    assert_eq!(pick_by_file(&vec![vec![false, false]], 2), vec![]);
    assert_eq!(pick_by_file(&vec![vec![true, true], vec![true, true]], 2), vec![
        (0, 0),
        (0, 1),
        (1, 0),
        (1, 1)
    ]);
}

#[test]
fn yes_answers_are_listed_set_by_set() {
    let answers = vec![vec![true, true], vec![false, false], vec![false, true], vec![true, false]];
    assert_eq!(pick_by_set(&answers, 2), vec![(0, 0), (3, 0), (0, 1), (2, 1)]);
    assert_eq!(pick_by_set(&answers, 1), vec![(0, 0), (3, 0)]);
    assert_eq!(pick_by_set(&answers, 0), vec![]);
    assert_eq!(pick_by_set(&vec![], 2), vec![]);
    assert_eq!(pick_by_set(&vec![vec![true, true], vec![true, true]], 2), vec![
        (0, 0),
        (1, 0),
        (0, 1),
        (1, 1)
    ]);
}

#[test]
fn a_short_row_answers_no_beyond_its_end() {
    let answers = vec![vec![true], vec![true, true, true], vec![]];
    assert_eq!(pick_by_file(&answers, 2), vec![(0, 0), (1, 0), (1, 1)]);
    assert_eq!(pick_by_set(&answers, 2), vec![(0, 0), (1, 0), (1, 1)]);
    assert_eq!(pick_by_set(&answers, 3), vec![(0, 0), (1, 0), (1, 1), (1, 2)]);
}
