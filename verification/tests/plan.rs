use orbit::fileset::Fileset;
use orbit::graph::GraphError;
use orbit::lang::{DesignUnit, Dialect, Identifier, Position};
use orbit::plan::{
    choose_targets, detect_top, index_units, list_files, write_env, write_hdl_records, FileUnit,
    HashNode, Plan,
};

fn id(name: &str) -> Identifier {
    Identifier::new(name, Dialect::Vhdl)
}

fn entity(file: &str, name: &str, ports: usize) -> FileUnit {
    FileUnit { file: file.to_string(), unit: DesignUnit::Entity { name: id(name), ports } }
}

fn architecture(file: &str, owner: &str, edges: &[&str]) -> FileUnit {
    FileUnit {
        file: file.to_string(),
        unit: DesignUnit::Architecture {
            name: id("rtl"),
            owner: id(owner),
            edges: edges.iter().map(|e| id(e)).collect(),
        },
    }
}

fn no_flags() -> Plan {
    Plan::new(None, None, None, None, None)
}

fn adder_with_bench() -> Vec<FileUnit> {
    vec![
        entity("/p/adder.vhd", "adder", 3),
        architecture("/p/adder.vhd", "adder", &[]),
        entity("/p/adder_tb.vhd", "adder_tb", 0),
        architecture("/p/adder_tb.vhd", "adder_tb", &["adder"]),
    ]
}

#[test]
fn single_entity_has_no_bench() {
    let units = vec![entity("/p/adder.vhd", "adder", 3)];
    let r = no_flags().run(&units, &Vec::new(), None);
    assert_eq!(r, Err(GraphError::AmbiguousBench(Vec::new())));
}

#[test]
fn top_and_bench_pair_is_planned() {
    let out = no_flags().run(&adder_with_bench(), &Vec::new(), None).unwrap();
    assert_eq!(out.top, 0);
    assert_eq!(out.bench, 1);
    assert_eq!(out.order, vec![0, 1]);
    assert_eq!(out.files, vec!["/p/adder.vhd".to_string(), "/p/adder_tb.vhd".to_string()]);
    assert_eq!(
        out.blueprint,
        "VHDL-RTL\twork\t/p/adder.vhd\nVHDL-SIM\twork\t/p/adder_tb.vhd\n"
    );
    assert_eq!(out.env, "ORBIT_TOP=adder\nORBIT_BENCH=adder_tb\n");
}

#[test]
fn cycle_fails_the_plan() {
    let units = vec![
        entity("/p/a.vhd", "a", 1),
        entity("/p/b.vhd", "b", 1),
        entity("/p/tb.vhd", "tb", 0),
        architecture("/p/a.vhd", "a", &["b"]),
        architecture("/p/b.vhd", "b", &["a"]),
        architecture("/p/tb.vhd", "tb", &["a"]),
    ];
    assert_eq!(no_flags().run(&units, &Vec::new(), None), Err(GraphError::CyclicDesign));
}

#[test]
fn two_entities_in_a_circle_are_cyclic() {
    let units = vec![
        entity("/p/a.vhd", "a", 0),
        entity("/p/b.vhd", "b", 1),
        architecture("/p/a.vhd", "a", &["b"]),
        architecture("/p/b.vhd", "b", &["a"]),
    ];
    let plan = Plan::new(None, Some(id("a")), None, None, None);
    assert_eq!(plan.run(&units, &Vec::new(), None), Err(GraphError::CyclicDesign));
    let plan = Plan::new(None, Some(id("a")), Some(id("b")), None, None);
    assert_eq!(plan.run(&units, &Vec::new(), None), Err(GraphError::CyclicDesign));
}

#[test]
fn two_tops_are_ambiguous() {
    let units = vec![
        entity("/p/x.vhd", "x", 2),
        entity("/p/y.vhd", "y", 2),
        entity("/p/tb.vhd", "tb", 0),
        architecture("/p/tb.vhd", "tb", &["x", "y"]),
    ];
    assert_eq!(
        no_flags().run(&units, &Vec::new(), None),
        Err(GraphError::AmbiguousTop(vec![0, 1]))
    );
}

#[test]
fn two_benches_are_ambiguous() {
    let units = vec![
        entity("/p/x.vhd", "x", 2),
        entity("/p/tb1.vhd", "tb1", 0),
        entity("/p/tb2.vhd", "tb2", 0),
        architecture("/p/tb1.vhd", "tb1", &["x"]),
        architecture("/p/tb2.vhd", "tb2", &["x"]),
    ];
    assert_eq!(
        no_flags().run(&units, &Vec::new(), None),
        Err(GraphError::AmbiguousBench(vec![1, 2]))
    );
    // naming the bench settles it
    let plan = Plan::new(None, Some(id("tb2")), None, None, None);
    let out = plan.run(&units, &Vec::new(), None).unwrap();
    assert_eq!((out.top, out.bench), (0, 2));
    assert_eq!(out.order, vec![0, 2]);
    // naming the top does not: it has two successors
    let plan = Plan::new(None, None, Some(id("x")), None, None);
    assert_eq!(
        plan.run(&units, &Vec::new(), None),
        Err(GraphError::AmbiguousBench(vec![1, 2]))
    );
}

#[test]
fn bench_without_top_has_no_top() {
    let units = vec![entity("/p/tb.vhd", "tb", 0), architecture("/p/tb.vhd", "tb", &[])];
    assert_eq!(no_flags().run(&units, &Vec::new(), None), Err(GraphError::NoTop));
}

#[test]
fn requested_units_are_checked() {
    let units = adder_with_bench();
    let plan = Plan::new(None, Some(id("nothing")), None, None, None);
    assert_eq!(
        plan.run(&units, &Vec::new(), None),
        Err(GraphError::UnknownUnit("nothing".to_string()))
    );
    let plan = Plan::new(None, Some(id("adder")), None, None, None);
    assert_eq!(
        plan.run(&units, &Vec::new(), None),
        Err(GraphError::NotTestbench("adder".to_string()))
    );
    let plan = Plan::new(None, None, Some(id("adder_tb")), None, None);
    assert_eq!(
        plan.run(&units, &Vec::new(), None),
        Err(GraphError::IsTestbench("adder_tb".to_string()))
    );
    let plan = Plan::new(None, None, Some(id("missing")), None, None);
    assert_eq!(
        plan.run(&units, &Vec::new(), None),
        Err(GraphError::UnknownUnit("missing".to_string()))
    );
}

#[test]
fn requested_top_adopts_its_bench() {
    let plan = Plan::new(None, None, Some(id("ADDER")), None, None);
    let out = plan.run(&adder_with_bench(), &Vec::new(), None).unwrap();
    assert_eq!((out.top, out.bench), (0, 1));
    assert_eq!(out.env, "ORBIT_TOP=adder\nORBIT_BENCH=adder_tb\n");
}

#[test]
fn vhdl_names_ignore_case_and_others_do_not() {
    assert!(id("Adder").matches(&id("aDDER")));
    assert!(!id("adder").matches(&id("adder2")));
    let a = Identifier::new("Adder", Dialect::SystemVerilog);
    let b = Identifier::new("adder", Dialect::SystemVerilog);
    assert!(!a.matches(&b));
    assert!(a.matches(&Identifier::new("Adder", Dialect::Verilog)));
    assert!(!a.matches(&id("adder")));
    // equal are names of one language, in VHDL whatever the case
    assert_eq!(id("Adder"), id("aDDER"));
    assert_ne!(id("adder"), id("adder2"));
    assert_ne!(a, b);
    assert_eq!(a, Identifier::new("Adder", Dialect::SystemVerilog));
    assert_ne!(a, Identifier::new("Adder", Dialect::Verilog));
    assert_ne!(id("Adder"), a);
}

#[test]
fn duplicate_unit_in_two_files_fails() {
    let units = vec![entity("/p/a.vhd", "adder", 1), entity("/p/b.vhd", "ADDER", 1)];
    assert_eq!(index_units(&units).err(), Some(GraphError::DuplicateUnit("ADDER".to_string())));
    // the same file may declare it twice
    let units = vec![entity("/p/a.vhd", "adder", 1), entity("/p/a.vhd", "adder", 1)];
    let (graph, nodes) = index_units(&units).unwrap();
    assert_eq!(graph.node_count(), 1);
    assert_eq!(nodes.len(), 1);
}

#[test]
fn index_collects_files_and_edges() {
    let units = vec![
        entity("/p/ent.vhd", "top", 1),
        entity("/p/sub.vhd", "sub", 1),
        architecture("/p/arch1.vhd", "top", &["sub", "sub", "unknown"]),
        architecture("/p/arch2.vhd", "top", &[]),
        architecture("/p/arch1.vhd", "top", &[]),
        architecture("/p/lost.vhd", "nobody", &["sub"]),
    ];
    let (graph, nodes) = index_units(&units).unwrap();
    assert_eq!(graph.node_count(), 2);
    assert_eq!(graph.edge_count(), 2);
    assert!(graph.has_edge(1, 0));
    assert_eq!(nodes[0].index(), 0);
    assert_eq!(nodes[1].index(), 1);
    assert_eq!(
        nodes[0].get_files(),
        &vec!["/p/ent.vhd".to_string(), "/p/arch1.vhd".to_string(), "/p/arch2.vhd".to_string()]
    );
    assert_eq!(nodes[1].get_files(), &vec!["/p/sub.vhd".to_string()]);
    assert_eq!(list_files(&nodes, &vec![1, 0]).len(), 4);
}

#[test]
fn hash_node_keeps_files_once() {
    let mut node =
        HashNode::new(DesignUnit::Entity { name: id("e"), ports: 2 }, 7, "a.vhd".to_string());
    assert_eq!(node.index(), 7);
    node.add_file("b.vhd".to_string());
    node.add_file("a.vhd".to_string());
    node.add_file("b.vhd".to_string());
    assert_eq!(node.get_files(), &vec!["a.vhd".to_string(), "b.vhd".to_string()]);
    assert!(!node.is_testbench());
    assert_eq!(node.get_name().as_str(), "e");
    assert_eq!(node.get_unit(), &DesignUnit::Entity { name: id("e"), ports: 2 });
}

#[test]
fn detect_top_finds_the_only_predecessor() {
    let (graph, nodes) = index_units(&adder_with_bench()).unwrap();
    assert_eq!(detect_top(&graph, Some(1)), Ok(0));
    assert_eq!(Plan::detect_top(&graph, Some(1)), Ok(0));
    assert_eq!(detect_top(&graph, Some(0)), Err(GraphError::NoTop));
    assert_eq!(choose_targets(&graph, &nodes, &None, &None), Ok((0, 1)));
}

#[test]
fn records_name_the_set_by_the_file() {
    let files = vec![
        "/p/a.vhd".to_string(),
        "/p/tb_a.vhdl".to_string(),
        "/p/A_TB.VHD".to_string(),
        "/p/m.v".to_string(),
        "/p/n.sv".to_string(),
    ];
    let text: String = write_hdl_records(&files).into_iter().collect();
    assert_eq!(
        text,
        "VHDL-RTL\twork\t/p/a.vhd\nVHDL-SIM\twork\t/p/tb_a.vhdl\nVHDL-SIM\twork\t/p/A_TB.VHD\nVLOG\twork\t/p/m.v\nSYSV\twork\t/p/n.sv\n"
    );
    assert_eq!(write_env(&id("t"), &id("b")), "ORBIT_TOP=t\nORBIT_BENCH=b\n");
}

#[test]
fn filesets_come_before_sources() {
    let files = vec![
        "/p/adder.vhd".to_string(),
        "/p/adder_tb.vhd".to_string(),
        "/p/pins.xdc".to_string(),
        "/p/notes.TXT".to_string(),
    ];
    let user = vec![
        Fileset::new("text", "*.txt").unwrap(),
        Fileset::new("pins", "*.xdc").unwrap(),
    ];
    let plugin = vec![
        Fileset::new("ALL-ADDER", "*adder*").unwrap(),
        Fileset::new("XDC", "*.xdc").unwrap(),
    ];
    let plan = Plan::new(Some("sim".to_string()), None, None, None, Some(user));
    let out = plan.run(&adder_with_bench(), &files, Some(&plugin)).unwrap();
    assert_eq!(
        out.blueprint,
        "text\tnotes\t/p/notes.TXT\n\
         pins\tpins\t/p/pins.xdc\n\
         ALL-ADDER\tadder\t/p/adder.vhd\n\
         ALL-ADDER\tadder_tb\t/p/adder_tb.vhd\n\
         XDC\tpins\t/p/pins.xdc\n\
         VHDL-RTL\twork\t/p/adder.vhd\n\
         VHDL-SIM\twork\t/p/adder_tb.vhd\n"
    );
    assert_eq!(plan.get_plugin(), Some(&"sim".to_string()));
    assert_eq!(plan.get_build_dir(), None);
    assert_eq!(plan.get_top(), None);
    let asked = Plan::new(None, Some(id("tb")), Some(id("dut")), Some("out".to_string()), None);
    assert_eq!(asked.get_top().map(|t| t.to_string()), Some("dut".to_string()));
    assert_eq!(asked.get_bench().map(|b| b.get_dialect()), Some(Dialect::Vhdl));
    assert_eq!(asked.get_build_dir(), Some(&"out".to_string()));
}

#[test]
fn nodes_hold_the_units_they_were_made_for() {
    let placed = Identifier::at("top".to_string(), Dialect::SystemVerilog, Position::place(3, 7));
    let units = vec![
        architecture("/p/a.vhd", "adder", &["top"]),
        entity("/p/a.vhd", "adder", 3),
        FileUnit {
            file: "/p/top.sv".to_string(),
            unit: DesignUnit::Module { name: placed, ports: 0, edges: vec![id("adder")] },
        },
    ];
    let (_, nodes) = index_units(&units).unwrap();
    assert_eq!(nodes.len(), 2);
    assert_eq!(nodes[0].get_unit(), &DesignUnit::Entity { name: id("adder"), ports: 3 });
    assert_eq!(nodes[0].get_files()[0], "/p/a.vhd");
    match nodes[1].get_unit() {
        DesignUnit::Module { name, ports, edges } => {
            assert_eq!(name.as_str(), "top");
            assert_eq!(name.get_dialect(), Dialect::SystemVerilog);
            assert_eq!(name.get_position(), &Position::place(3, 7));
            assert_eq!(*ports, 0);
            assert_eq!(edges.len(), 1);
        }
        _ => panic!("no module"),
    }
    assert_eq!(nodes[1].get_files(), &vec!["/p/top.sv".to_string()]);
}
