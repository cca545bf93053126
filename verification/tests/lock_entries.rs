use orbit::catalog::CacheSlot;
use orbit::digest::{Sha256Hash, Uuid};
use orbit::ip::{Ip, IpSpec, Source};
use orbit::lockfile::{lock_number, LockEntry, LockError, LockFile, IP_LOCK_FILE, LOCK_VERSION};
use orbit::document::{parse_document, Node};
use orbit::pkgid::PkgPart;
use orbit::version::{AnyVersion, PartialVersion, Version};

fn name(s: &str) -> PkgPart {
    PkgPart::from_str(s).unwrap()
}

fn version(s: &str) -> Version {
    Version::from_str(s).unwrap()
}

fn spec(n: &str, v: &str) -> IpSpec {
    IpSpec::new(name(n), version(v))
}

fn sum(first: u8) -> Sha256Hash {
    let mut bytes = vec![0u8; 32];
    bytes[0] = first;
    Sha256Hash::from_bytes(bytes).unwrap()
}

fn ip(n: &str, v: &str, first: u8, deps: Vec<IpSpec>) -> Ip {
    Ip::new(name(n), version(v), Uuid::nil(), sum(first), None, deps)
}

fn entry(n: &str, v: &str) -> LockEntry {
    LockEntry::new(name(n), version(v), Uuid::nil(), Some(sum(1)), None, Vec::new())
}

#[test]
fn lockfile_is_stable() {
    // lab1 -> lab2, lab1 -> lab4 -> lab3
    let lab1 = ip("lab1", "0.5.0", 1, vec![spec("lab4", "0.5.19"), spec("lab2", "1.0.0")]);
    let lab2 = ip("lab2", "1.0.0", 2, vec![]);
    let lab3 = ip("lab3", "2.3.1", 3, vec![]);
    let lab4 = ip("lab4", "0.5.19", 4, vec![spec("lab3", "2.3.1")]);
    let mut build_list = vec![&lab4, &lab2, &lab1, &lab3];
    let lock = LockFile::from_build_list(&mut build_list, &lab1);
    let names: Vec<String> = lock.inner().iter().map(|e| e.get_name().to_string()).collect();
    assert_eq!(names, vec!["lab1", "lab2", "lab3", "lab4"]);
    let listed: Vec<String> = build_list.iter().map(|i| i.get_name().to_string()).collect();
    assert_eq!(listed, vec!["lab1", "lab2", "lab3", "lab4"]);
    let deps: Vec<String> = lock.inner()[0].get_deps().iter().map(|d| d.to_string()).collect();
    assert_eq!(deps, vec!["lab2:1.0.0", "lab4:0.5.19"]);
    // the project's own entry has no checksum, the others have theirs
    assert_eq!(lock.inner()[0].get_sum(), None);
    assert_eq!(lock.inner()[1].get_sum(), Some(&sum(2)));
    assert_eq!(lock.inner()[3].get_sum(), Some(&sum(4)));
    // the same build in another order gives the same lockfile
    let mut again = vec![&lab3, &lab1, &lab4, &lab2];
    assert_eq!(LockFile::from_build_list(&mut again, &lab1), lock);
    let text = lock.to_string().unwrap();
    assert_eq!(LockFile::from_str(&text), Ok(lock));
}

#[test]
fn versions_of_one_name_are_sorted() {
    let a2 = ip("a", "2.0.0", 1, vec![]);
    let a10 = ip("a", "10.0.0", 2, vec![]);
    let a1 = ip("a", "1.9.0", 3, vec![]);
    let b = ip("B", "0.0.1", 4, vec![]);
    let mut build_list = vec![&a2, &a10, &b, &a1];
    let lock = LockFile::from_build_list(&mut build_list, &b);
    let listed: Vec<String> =
        lock.inner().iter().map(|e| e.to_ip_spec().to_string()).collect();
    assert_eq!(listed, vec!["B:0.0.1", "a:1.9.0", "a:2.0.0", "a:10.0.0"]);
}

#[test]
fn entry_from_ip_sorts_dependencies() {
    let src = Some(Source::from_str("https://x.y"));
    let pkg = Ip::new(
        name("top"),
        version("1.0.0"),
        Uuid::nil(),
        sum(9),
        src,
        vec![spec("z", "1.0.0"), spec("a", "2.0.0"), spec("a", "1.0.0"), spec("m", "0.1.0")],
    );
    let e = LockEntry::from((&pkg, false));
    let deps: Vec<String> = e.get_deps().iter().map(|d| d.to_string()).collect();
    assert_eq!(deps, vec!["a:1.0.0", "a:2.0.0", "m:0.1.0", "z:1.0.0"]);
    assert_eq!(e.get_sum(), Some(&sum(9)));
    assert_eq!(e.get_source(), Some(&Source::from_str("https://x.y")));
    assert_eq!(e.get_uuid(), &Uuid::nil());
    assert_eq!(e.get_version(), &version("1.0.0"));
    assert_eq!(LockEntry::from((&pkg, true)).get_sum(), None);
}

#[test]
fn new_lockfile_is_empty() {
    let lock = LockFile::new();
    assert!(lock.is_empty());
    assert_eq!(lock, LockFile::wrap(Vec::new()));
    assert_eq!(lock.unwrap().len(), 0);
    let full = LockFile::wrap(vec![entry("a", "1.0.0")]);
    assert!(!full.is_empty());
    assert_eq!(full.inner().len(), 1);
    assert_eq!(full.unwrap(), vec![entry("a", "1.0.0")]);
    assert_eq!(IP_LOCK_FILE, "Orbit.lock");
    assert_eq!(LOCK_VERSION, 1);
}

#[test]
fn get_finds_name_and_version() {
    let lock = LockFile::wrap(vec![entry("a", "1.0.0"), entry("b", "1.0.0"), entry("a", "1.2.0")]);
    assert_eq!(lock.get(&name("a"), &version("1.2.0")), Some(&entry("a", "1.2.0")));
    assert_eq!(lock.get(&name("b"), &version("1.0.0")), Some(&entry("b", "1.0.0")));
    assert_eq!(lock.get(&name("b"), &version("1.2.0")), None);
    assert_eq!(lock.get(&name("c"), &version("1.0.0")), None);
}

#[test]
fn get_highest_finds_the_highest_fit() {
    let lock = LockFile::wrap(vec![
        entry("a", "1.0.0"),
        entry("b", "3.0.0"),
        entry("a", "1.2.0"),
        entry("a", "2.0.1"),
        entry("a", "1.1.9"),
    ]);
    assert_eq!(lock.get_highest(&name("a"), &AnyVersion::Latest), Some(&entry("a", "2.0.1")));
    let one = AnyVersion::Specific(PartialVersion::new().major(1));
    assert_eq!(lock.get_highest(&name("a"), &one), Some(&entry("a", "1.2.0")));
    assert_eq!(lock.get_highest(&name("b"), &one), None);
    assert_eq!(lock.get_highest(&name("c"), &AnyVersion::Latest), None);
    assert_eq!(lock.get_highest(&name("a"), &AnyVersion::Dev), None);
}

#[test]
fn matches_target_ignores_checksum_and_uuid() {
    let a = LockEntry::new(name("a"), version("1.0.0"), Uuid::nil(), None, None, vec![spec("d", "1.0.0")]);
    let b = LockEntry::new(
        name("a"),
        version("1.0.0"),
        Uuid::from_bytes(vec![7; 16]).unwrap(),
        Some(sum(3)),
        None,
        vec![spec("d", "1.0.0")],
    );
    assert!(a.matches_target(&b));
    assert!(b.matches_target(&a));
    let other_deps = LockEntry::new(name("a"), version("1.0.0"), Uuid::nil(), None, None, Vec::new());
    assert!(!a.matches_target(&other_deps));
    let other_source = LockEntry::new(
        name("a"),
        version("1.0.0"),
        Uuid::nil(),
        None,
        Some(Source::from_str("u")),
        vec![spec("d", "1.0.0")],
    );
    assert!(!a.matches_target(&other_source));
    let other_version =
        LockEntry::new(name("a"), version("1.0.1"), Uuid::nil(), None, None, vec![spec("d", "1.0.0")]);
    assert!(!a.matches_target(&other_version));
}

#[test]
fn cache_slot_key_is_made_of_the_entry() {
    let e = LockEntry::new(name("gates"), version("1.2.3"), Uuid::nil(), Some(sum(0xbe)), None, Vec::new());
    assert_eq!(e.to_cache_slot_key(), CacheSlot::new(&name("gates"), &version("1.2.3"), &sum(0xbe)));
    assert_eq!(e.to_cache_slot_key().to_string(), "gates-1.2.3-be00000000");
    assert_eq!(e.to_ip_spec(), spec("gates", "1.2.3"));
}

#[test]
fn file_text_starts_with_the_comment() {
    let lock = LockFile::wrap(vec![entry("a", "1.0.0")]);
    let text = lock.file_text().unwrap();
    assert_eq!(
        text,
        format!(
            "# This file is auto-generated by Orbit. DO NOT EDIT.\n{}",
            lock.to_string().unwrap()
        )
    );
    assert_eq!(LockFile::read(&text), Ok((lock, false)));
}

#[test]
fn read_dispatches_on_the_format_number() {
    assert_eq!(LockFile::read("version = 1\nip = []\n"), Ok((LockFile::new(), false)));
    assert_eq!(LockFile::read("version = 2\nip = []\n"), Err(LockError::UnsupportedLockVersion));
    assert_eq!(LockFile::read("version = 0\n"), Err(LockError::UnsupportedLockVersion));
    assert_eq!(LockFile::read("ip = []\n"), Err(LockError::MissingVersion));
    assert_eq!(LockFile::read("version = \"1\"\n"), Err(LockError::MissingVersion));
    assert_eq!(LockFile::read("version = -1\n"), Err(LockError::MissingVersion));
    assert_eq!(LockFile::read("version = 1 1\n"), Err(LockError::Syntax));
}

#[test]
fn malformed_lockfile_reads_as_empty_with_a_warning() {
    assert_eq!(LockFile::read("version = 1\n"), Ok((LockFile::new(), true)));
    assert_eq!(
        LockFile::read("version = 1\n\n[[ip]]\nname = \"9lives\"\nversion = \"1.0.0\"\nuuid = \"00000000-0000-0000-0000-000000000000\"\ndependencies = []\n"),
        Ok((LockFile::new(), true))
    );
}

#[test]
fn entries_are_read_with_care() {
    let good = "name = \"a\"\nversion = \"1.0.0\"\nuuid = \"00000000-0000-0000-0000-000000000000\"\ndependencies = [\"b:1.0.0\"]\nextra = 5\nurl = \"u\"\n";
    let node = parse_document(good).unwrap();
    let e = LockEntry::from_node(&node).unwrap();
    assert_eq!(e.get_source(), Some(&Source::from_str("u")));
    assert_eq!(e.get_deps(), &vec![spec("b", "1.0.0")]);
    assert_eq!(e.get_sum(), None);
    assert_eq!(LockEntry::from_node(&e.to_node()), Some(e));
    for bad in [
        "version = \"1.0.0\"\nuuid = \"00000000-0000-0000-0000-000000000000\"\ndependencies = []\n",
        "name = \"a\"\nversion = \"1.0\"\nuuid = \"00000000-0000-0000-0000-000000000000\"\ndependencies = []\n",
        "name = \"a\"\nversion = \"1.0.0\"\nuuid = \"0\"\ndependencies = []\n",
        "name = \"a\"\nversion = \"1.0.0\"\nuuid = \"00000000-0000-0000-0000-000000000000\"\n",
        "name = \"a\"\nversion = \"1.0.0\"\nuuid = \"00000000-0000-0000-0000-000000000000\"\ndependencies = [\"b\"]\n",
        "name = \"a\"\nversion = \"1.0.0\"\nuuid = \"00000000-0000-0000-0000-000000000000\"\ndependencies = [1]\n",
        "name = \"a\"\nversion = \"1.0.0\"\nuuid = \"00000000-0000-0000-0000-000000000000\"\nchecksum = \"12\"\ndependencies = []\n",
        "name = \"a\"\nversion = \"1.0.0\"\nuuid = \"00000000-0000-0000-0000-000000000000\"\nchecksum = 12\ndependencies = []\n",
        "name = 1\nversion = \"1.0.0\"\nuuid = \"00000000-0000-0000-0000-000000000000\"\ndependencies = []\n",
    ] {
        assert_eq!(LockEntry::from_node(&parse_document(bad).unwrap()), None);
    }
    assert_eq!(LockEntry::from_node(&Node::Integer(1)), None);
    // a url that is no text is passed over
    let odd = "name = \"a\"\nversion = \"1.0.0\"\nuuid = \"00000000-0000-0000-0000-000000000000\"\nurl = 3\ndependencies = []\n";
    assert_eq!(LockEntry::from_node(&parse_document(odd).unwrap()).unwrap().get_source(), None);
}

#[test]
fn lock_number_is_a_small_integer() {
    assert_eq!(lock_number(&parse_document("version = 7\n").unwrap()), Some(7));
    assert_eq!(lock_number(&parse_document("version = 4294967295\n").unwrap()), Some(4294967295));
    assert_eq!(lock_number(&parse_document("version = 4294967296\n").unwrap()), None);
    assert_eq!(lock_number(&parse_document("version = 1.0\n").unwrap()), None);
    assert_eq!(lock_number(&Node::Text("version".to_string())), None);
}
