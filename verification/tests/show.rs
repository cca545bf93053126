use orbit::lang::{DesignUnit, Dialect, Identifier};
use orbit::pkgid::PkgPart;
use orbit::show::{primary_units, Show, ShowMode};
use orbit::version::{AnyVersion, PartialVersion, Version};

fn id(name: &str) -> Identifier {
    Identifier::new(name, Dialect::Vhdl)
}

#[test]
fn units_table_is_sorted_and_padded() {
    let table = vec![
        DesignUnit::Package { name: id("util_pkg") },
        DesignUnit::Entity { name: id("adder"), ports: 3 },
        DesignUnit::Configuration { name: id("cfg"), owner: id("adder") },
    ];
    let expected = "\
Identifier                      Type          Public   
------------------------------- ------------- -------- 
adder                           entity        y 
cfg                             configuration y 
util_pkg                        package       y 
";
    assert_eq!(Show::format_units_table(table), expected);
}

#[test]
fn units_table_without_units_is_the_header() {
    let header = format!(
        "{:<32}{:<14}{:<9}\n{:->32}{3:->14}{3:->9}\n",
        "Identifier", "Type", "Public", " "
    );
    assert_eq!(Show::format_units_table(Vec::new()), header);
}

#[test]
fn long_names_are_not_cut() {
    let name = "a_very_long_identifier_that_needs_more_than_32";
    let table = vec![DesignUnit::Module { name: id(name), ports: 0, edges: Vec::new() }];
    let text = Show::format_units_table(table);
    let row = format!("{:<32}{:<14}{:<2}\n", name, "module", "y");
    assert!(text.ends_with(&row));
}

#[test]
fn mode_follows_the_flags() {
    assert_eq!(Show::new(None, true, true, None).run(), ShowMode::Units);
    assert_eq!(Show::new(None, false, true, None).run(), ShowMode::Units);
    assert_eq!(Show::new(None, true, false, None).run(), ShowMode::Versions);
    assert_eq!(Show::new(None, false, false, None).run(), ShowMode::Manifest);
    let named = Show::new(PkgPart::from_str("gates"), false, false, None);
    assert_eq!(named.get_ip().map(|p| p.to_string()), Some("gates".to_string()));
    assert_eq!(named.get_version(), AnyVersion::Latest);
}

#[test]
fn versions_are_listed_as_asked() {
    let versions = vec![Version::new(1, 0, 0), Version::new(2, 0, 0), Version::new(1, 2, 0)];
    let all = Show::new(None, true, false, None);
    assert_eq!(all.list_versions(&versions), versions);
    let ones =
        Show::new(None, true, false, Some(AnyVersion::Specific(PartialVersion::new().major(1))));
    assert_eq!(ones.list_versions(&versions), vec![Version::new(1, 0, 0), Version::new(1, 2, 0)]);
    let dev = Show::new(None, true, false, Some(AnyVersion::Dev));
    assert_eq!(dev.list_versions(&versions), Vec::new());
}

#[test]
fn architectures_are_not_listed() {
    let units = vec![
        DesignUnit::Architecture { name: id("rtl"), owner: id("adder"), edges: vec![] },
        DesignUnit::Entity { name: id("adder"), ports: 3 },
        DesignUnit::Package { name: id("p") },
        DesignUnit::Architecture { name: id("sim"), owner: id("adder"), edges: vec![id("x")] },
        DesignUnit::Configuration { name: id("cfg"), owner: id("adder") },
        DesignUnit::Module { name: id("m"), ports: 0, edges: vec![] },
    ];
    assert_eq!(
        primary_units(units),
        vec![
            DesignUnit::Entity { name: id("adder"), ports: 3 },
            DesignUnit::Package { name: id("p") },
            DesignUnit::Configuration { name: id("cfg"), owner: id("adder") },
            DesignUnit::Module { name: id("m"), ports: 0, edges: vec![] },
        ]
    );
    assert_eq!(primary_units(vec![]), vec![]);
}
