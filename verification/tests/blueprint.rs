use orbit::blueprint::{Blueprint, Instruction, IpFileNode, Scheme};

#[test]
fn scheme_is_named_tsv() {
    assert_eq!(Scheme::default(), Scheme::Tsv);
    assert_eq!(Scheme::Tsv.to_string(), "tsv");
    assert_eq!(Scheme::from_str("tsv"), Ok(Scheme::Tsv));
    assert_eq!(Scheme::from_str("TSV"), Ok(Scheme::Tsv));
    assert_eq!(Scheme::from_str("json"), Err("unknown file format: json".to_string()));
    assert_eq!(Scheme::from_str("tsvx"), Err("unknown file format: tsvx".to_string()));
    assert_eq!(Scheme::from_str(""), Err("unknown file format: ".to_string()));
}

#[test]
fn instruction_names_the_source_set() {
    let vhdl = IpFileNode::new("/p/a.vhd".to_string(), "work".to_string());
    let vlog = IpFileNode::new("/p/b.V".to_string(), "lib1".to_string());
    let sysv = IpFileNode::new("/p/c.sv".to_string(), "lib2".to_string());
    let bench = IpFileNode::new("/p/a_tb.vhdl".to_string(), "work".to_string());
    let other = IpFileNode::new("/p/TB_a.VHD".to_string(), "lib3".to_string());
    assert_eq!(Instruction::Hdl(&vhdl).write(&Scheme::Tsv), "VHDL-RTL\twork\t/p/a.vhd");
    assert_eq!(Instruction::Hdl(&bench).write(&Scheme::Tsv), "VHDL-SIM\twork\t/p/a_tb.vhdl");
    assert_eq!(Instruction::Hdl(&other).write(&Scheme::Tsv), "VHDL-SIM\tlib3\t/p/TB_a.VHD");
    assert_eq!(Instruction::Hdl(&vlog).write(&Scheme::Tsv), "VLOG\tlib1\t/p/b.V");
    assert_eq!(Instruction::Hdl(&sysv).write(&Scheme::Tsv), "SYSV\tlib2\t/p/c.sv");
    assert_eq!(vhdl.get_file(), "/p/a.vhd");
    assert_eq!(vhdl.get_library(), "work");
}

#[test]
fn auxiliary_instruction_is_written_as_given() {
    let step = Instruction::Auxiliary("PINS".to_string(), "work".to_string(), "/p/pins.xdc".to_string());
    assert_eq!(step.write(&Scheme::Tsv), "PINS\twork\t/p/pins.xdc");
    assert!(step.can_write());
}

#[test]
fn unknown_source_cannot_be_written() {
    let other = IpFileNode::new("/p/readme.md".to_string(), "work".to_string());
    assert!(!Instruction::Hdl(&other).can_write());
    let bare = IpFileNode::new("/p/vhd".to_string(), "work".to_string());
    assert!(!Instruction::Hdl(&bare).can_write());
}

#[test]
fn blueprint_lists_steps_in_order() {
    let a = IpFileNode::new("/p/a.vhd".to_string(), "work".to_string());
    let b = IpFileNode::new("/p/b.sv".to_string(), "work".to_string());
    let mut blueprint = Blueprint::new(Scheme::Tsv);
    assert_eq!(blueprint.get_filename(), "blueprint.tsv");
    assert_eq!(blueprint.data(), "");
    blueprint.add(Instruction::Auxiliary("K".to_string(), "l".to_string(), "f".to_string()));
    blueprint.add(Instruction::Hdl(&a));
    blueprint.add(Instruction::Hdl(&b));
    assert_eq!(blueprint.len(), 3);
    assert_eq!(blueprint.data(), "K\tl\tf\nVHDL-RTL\twork\t/p/a.vhd\nSYSV\twork\t/p/b.sv\n");
    assert_eq!(Blueprint::default().len(), 0);
}

#[test]
fn blueprint_with_an_unknown_source_is_not_writable() {
    let good = IpFileNode::new("/p/a.vhd".to_string(), "work".to_string());
    let bad = IpFileNode::new("/p/readme.md".to_string(), "work".to_string());
    let mut blueprint = Blueprint::new(Scheme::Tsv);
    assert!(blueprint.is_writable());
    blueprint.add(Instruction::Hdl(&good));
    blueprint.add(Instruction::Auxiliary("K".to_string(), "l".to_string(), "notes.md".to_string()));
    assert!(blueprint.is_writable());
    blueprint.add(Instruction::Hdl(&bad));
    assert!(!blueprint.is_writable());
}

#[test]
fn steps_and_plans_name_the_same_sets() {
    for file in ["/p/a.vhd", "/p/a_tb.vhd", "/p/tb_a.vhdl", "/p/m.v", "/p/m.sv", "/p/m.svh"] {
        let node = IpFileNode::new(file.to_string(), "work".to_string());
        let planned: String = orbit::plan::write_hdl_records(&vec![file.to_string()]).into_iter().collect();
        assert_eq!(format!("{}\n", Instruction::Hdl(&node).write(&Scheme::Tsv)), planned);
    }
    assert_eq!(orbit::blueprint::source_set_of("/p/a.vhd"), "VHDL-RTL");
    assert_eq!(orbit::blueprint::source_set_of("/p/a_tb.vhd"), "VHDL-SIM");
    assert_eq!(orbit::blueprint::source_set_of("/p/m.v"), "VLOG");
    assert_eq!(orbit::blueprint::source_set_of("/p/m.sv"), "SYSV");
}
