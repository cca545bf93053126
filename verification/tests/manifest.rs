use orbit::document::{parse_document, Node};
use orbit::manifest::{
    scan_entries, Dependency, IpManifest, Manifest, ManifestError, Scan, BARE_MANIFEST,
    IP_MANIFEST_FILE,
};
use orbit::pkgid::PkgId;
use orbit::version::{PartialVersion, Version};

fn manifest_of(text: &str) -> IpManifest {
    IpManifest::from_str("/tmp/ip/Orbit.toml".to_string(), text).unwrap()
}

#[test]
fn new() {
    let manifest = IpManifest::init("/tmp/ip/Orbit.toml".to_string()).unwrap();
    let document: toml_edit::DocumentMut = manifest.0.get_text().parse().unwrap();
    assert_eq!(document.to_string(), BARE_MANIFEST);
    assert_eq!(manifest.0.get_text(), BARE_MANIFEST);
    assert_eq!(Some(manifest.0.get_doc()), parse_document(BARE_MANIFEST).as_ref());
    assert_eq!(manifest.0.get_path(), "/tmp/ip/Orbit.toml");
}

#[test]
fn bare_min_valid() {
    // has all keys and 'ip' table
    let manifest = IpManifest::init("/tmp/ip/Orbit.toml".to_string()).unwrap();
    assert_eq!(manifest.has_bare_min().unwrap(), ());

    // missing all required fields
    let manifest = manifest_of(
        "\
[ip]
",
    );
    assert_eq!(manifest.has_bare_min().is_err(), true);

    // missing 'version' key
    let manifest = manifest_of(
        "\
[ip]
vendor = \"v\"
library = \"l\"
name = \"n\"
",
    );
    assert_eq!(manifest.has_bare_min().is_err(), true);
}

#[test]
fn get_deps() {
    // empty table
    let manifest = manifest_of(
        "\
[dependencies]
",
    );
    assert_eq!(manifest.get_dependencies().unwrap(), vec![]);

    // no `dependencies` table
    let manifest = manifest_of(
        "\
[ip]
name = \"gates\"
",
    );
    assert_eq!(manifest.get_dependencies().unwrap(), vec![]);

    // `dependencies` table with entries
    let manifest = manifest_of(
        "\
[dependencies]
ks_tech.rary.gates = \"1.0.0\"
ks_tech.util.toolbox = \"2\"
c_rus.eel4712c.lab1 = \"4.2\"
",
    );
    assert_eq!(
        manifest.get_dependencies().unwrap(),
        vec![
            Dependency {
                pkgid: PkgId::from_str("ks_tech.rary.gates").unwrap(),
                version: PartialVersion::new().major(1).minor(0).patch(0)
            },
            Dependency {
                pkgid: PkgId::from_str("ks_tech.util.toolbox").unwrap(),
                version: PartialVersion::new().major(2)
            },
            Dependency {
                pkgid: PkgId::from_str("c_rus.eel4712c.lab1").unwrap(),
                version: PartialVersion::new().major(4).minor(2)
            },
        ]
    );
}

#[test]
fn bare_min_names_the_first_thing_missing() {
    assert_eq!(manifest_of("").has_bare_min(), Err(ManifestError::MissingIpTable));
    assert_eq!(manifest_of("ip = 3\n").has_bare_min(), Err(ManifestError::MissingIpTable));
    assert_eq!(manifest_of("[ip]\n").has_bare_min(), Err(ManifestError::MissingVendor));
    assert_eq!(
        manifest_of("[ip]\nvendor = \"v\"\nname = \"n\"\n").has_bare_min(),
        Err(ManifestError::MissingLibrary)
    );
    assert_eq!(
        manifest_of("[ip]\nvendor = \"v\"\nlibrary = \"l\"\nversion = \"1.0.0\"\n").has_bare_min(),
        Err(ManifestError::MissingName)
    );
    assert_eq!(
        manifest_of("[ip]\nvendor = \"v\"\nlibrary = \"l\"\nname = \"n\"\n").has_bare_min(),
        Err(ManifestError::MissingVersion)
    );
    assert_eq!(
        ManifestError::MissingVersion.to_string(),
        "missing required key 'version' in table 'ip'"
    );
    assert_eq!(ManifestError::MissingIpTable.to_string(), "missing 'ip' table");
}

#[test]
fn from_manifest_checks_the_bare_minimum() {
    let m = Manifest::from_str("p".to_string(), "[ip]\n").unwrap();
    assert_eq!(IpManifest::from_manifest(m).err(), Some(ManifestError::MissingVendor));
    let m = Manifest::from_str("p".to_string(), BARE_MANIFEST).unwrap();
    assert!(IpManifest::from_manifest(m).is_ok());
}

#[test]
fn empty_manifest_holds_nothing() {
    let empty = Manifest::new().unwrap();
    assert_eq!(empty.get_text(), "");
    assert_eq!(empty.get_path(), "");
    assert_eq!(empty.get_doc(), &Node::Table(Vec::new()));
    let ip = IpManifest::new().unwrap();
    assert_eq!(ip.has_bare_min(), Err(ManifestError::MissingIpTable));
    assert_eq!(ip.get_dependencies(), Ok(Vec::new()));
}

#[test]
fn broken_text_is_no_manifest() {
    assert!(Manifest::from_str("p".to_string(), "[ip\n").is_none());
    assert_eq!(
        IpManifest::from_str("p".to_string(), "name = = 1").err(),
        Some(ManifestError::Syntax)
    );
}

#[test]
fn bad_dependencies_are_refused() {
    for text in [
        "[dependencies]\na = \"1\"\n",
        "[dependencies]\na.b = \"1\"\n",
        "[dependencies]\na.b.c = 1\n",
        "[dependencies]\na.b.c = \"one\"\n",
        "[dependencies]\na.b.9c = \"1\"\n",
        "[dependencies]\nx.y.z = \"1\"\na.b.c = \"1.2.3.4\"\n",
    ] {
        assert_eq!(manifest_of(text).get_dependencies(), Err(ManifestError::BadDependency));
    }
}

#[test]
fn comments_and_spacing_do_not_change_dependencies() {
    let plain = manifest_of("[dependencies]\nv.l.a = \"1\"\nv.l.b = \"2.0\"\n");
    let decorated = manifest_of(
        "# what this package needs\n\n[dependencies]   # direct ones only\n\n   v.l.a   =   \"1\"   # first\n\n# second\nv.l.b=\"2.0\"\n\n",
    );
    assert_eq!(plain.get_dependencies(), decorated.get_dependencies());
    assert_eq!(plain.0.get_doc(), decorated.0.get_doc());
    assert_eq!(plain.get_dependencies().unwrap().len(), 2);
}

#[test]
fn entries_of_the_ip_table_are_read() {
    let manifest = manifest_of(
        "[ip]\nvendor = \"ks_tech\"\nlibrary = \"rary\"\nname = \"gates\"\nversion = \"1.2.3\"\nsummary = \"Logic gates\"\nrepository = \"https://x.y/gates.git\"\nsize = 4\n",
    );
    assert_eq!(manifest.as_pkgid(), PkgId::from_str("ks_tech.rary.gates"));
    assert_eq!(manifest.into_version(), Some(Version::new(1, 2, 3)));
    assert_eq!(manifest.get_summary(), Some("Logic gates".to_string()));
    assert_eq!(manifest.get_repository(), Some("https://x.y/gates.git".to_string()));
    assert_eq!(manifest.0.read_as_str("ip", "size"), None);
    assert_eq!(manifest.0.read_as_str("ip", "nothing"), None);
    assert_eq!(manifest.0.read_as_str("nothing", "name"), None);
    assert_eq!(manifest.0.get_path(), "/tmp/ip/Orbit.toml");
    let bare = IpManifest::init("p".to_string()).unwrap();
    assert_eq!(bare.as_pkgid(), None);
    assert_eq!(bare.into_version(), Some(Version::new(0, 1, 0)));
    assert_eq!(bare.get_summary(), None);
}

#[test]
fn write_sets_an_entry_and_keeps_the_rest() {
    let mut manifest = IpManifest::init("p".to_string()).unwrap();
    assert!(manifest.0.write("ip", "name", "gates"));
    assert_eq!(manifest.0.read_as_str("ip", "name"), Some("gates".to_string()));
    let text = manifest.0.get_text();
    assert!(text.contains("name    = \"gates\""));
    assert!(text.contains("# To learn more about writing the manifest"));
    assert!(text.contains("version = \"0.1.0\""));
    assert_eq!(parse_document(&text).as_ref(), Some(manifest.0.get_doc()));
    // a new key and a new table
    assert!(manifest.0.write("ip", "summary", "Logic gates"));
    assert!(manifest.0.write("extra", "key", "value"));
    assert_eq!(manifest.get_summary(), Some("Logic gates".to_string()));
    assert_eq!(manifest.0.read_as_str("extra", "key"), Some("value".to_string()));
}

#[test]
fn write_refuses_what_is_no_table() {
    let mut manifest = Manifest::from_str("p".to_string(), "ip = \"text\"\n").unwrap();
    assert!(!manifest.write("ip", "name", "gates"));
    assert_eq!(manifest.get_text(), "ip = \"text\"\n");
    assert_eq!(manifest.get_doc(), &Node::Table(vec![("ip".to_string(), Node::Text("text".to_string()))]));
}

#[test]
fn scan_stops_at_the_first_match() {
    let entries = vec![
        ("src".to_string(), true),
        ("Orbit.toml".to_string(), false),
        ("sub".to_string(), true),
        ("Orbit.toml".to_string(), false),
    ];
    assert_eq!(scan_entries(&entries, IP_MANIFEST_FILE), Scan::Found(1));
}

#[test]
fn scan_descends_without_a_match() {
    let entries = vec![
        ("src".to_string(), true),
        ("orbit.toml".to_string(), false),
        ("readme.md".to_string(), false),
        ("sub".to_string(), true),
    ];
    assert_eq!(scan_entries(&entries, IP_MANIFEST_FILE), Scan::Descend(vec![0, 3]));
    assert_eq!(scan_entries(&Vec::new(), IP_MANIFEST_FILE), Scan::Descend(Vec::new()));
}
