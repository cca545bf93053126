use orbit::catalog::{CacheSlot, ORBIT_SUM_FILE};
use orbit::checksum::{checksum, without_marker, FileRecord};
use orbit::digest::Sha256Hash;
use orbit::install::{
    cache_slot_name, gather_version_tags, installed_notice, is_copied, reinstall_notice, Install,
    InstallError, InstallSource, SlotStep,
};
use orbit::pkgid::{PkgId, PkgPart};
use orbit::version::{AnyVersion, PartialVersion, Version};

fn sum(first: u8) -> Sha256Hash {
    let mut bytes = vec![0u8; 32];
    bytes[0] = first;
    bytes[1] = 0xab;
    bytes[5] = 0x0f;
    Sha256Hash::from_bytes(bytes).unwrap()
}

#[test]
fn dev_version_is_never_installed() {
    let request = Install::new(None, Some("/x".to_string()), None, AnyVersion::Dev);
    assert_eq!(request.source(), Err(InstallError::DevVersion));
    assert_eq!(
        request.select_version(&vec!["1.0.0".to_string()]),
        Err(InstallError::DevVersion)
    );
}

#[test]
fn source_is_chosen_in_order() {
    let id = PkgId::from_str("v.l.n").unwrap();
    let all = Install::new(
        Some(id.clone()),
        Some("/x".to_string()),
        Some("https://g".to_string()),
        AnyVersion::Latest,
    );
    assert_eq!(all.source(), Ok(InstallSource::Catalog(id)));
    let two = Install::new(None, Some("/x".to_string()), Some("https://g".to_string()), AnyVersion::Latest);
    assert_eq!(two.source(), Ok(InstallSource::Git("https://g".to_string())));
    let one = Install::new(None, Some("/x".to_string()), None, AnyVersion::Latest);
    assert_eq!(one.source(), Ok(InstallSource::Path("/x".to_string())));
    let none = Install::new(None, None, None, AnyVersion::Latest);
    assert_eq!(none.source(), Err(InstallError::NoSource));
    assert_eq!(none.get_version(), &AnyVersion::Latest);
}

#[test]
fn tags_that_are_versions_are_gathered() {
    let tags: Vec<String> = ["1.0.0", "v1.1.0", "1.2", "0.9.12", "a.b.c", "2.0.0-rc1", "2.0.0"]
        .iter()
        .map(|t| t.to_string())
        .collect();
    assert_eq!(
        gather_version_tags(&tags),
        vec![Version::new(1, 0, 0), Version::new(0, 9, 12), Version::new(2, 0, 0)]
    );
}

#[test]
fn version_is_selected_from_tags() {
    let tags: Vec<String> =
        ["1.0.0", "1.4.2", "junk", "1.4.0", "2.1.0"].iter().map(|t| t.to_string()).collect();
    let latest = Install::new(None, Some("/x".to_string()), None, AnyVersion::Latest);
    assert_eq!(latest.select_version(&tags), Ok(Version::new(2, 1, 0)));
    let one = Install::new(
        None,
        Some("/x".to_string()),
        None,
        AnyVersion::Specific(PartialVersion::new().major(1)),
    );
    assert_eq!(one.select_version(&tags), Ok(Version::new(1, 4, 2)));
    let three = Install::new(
        None,
        Some("/x".to_string()),
        None,
        AnyVersion::Specific(PartialVersion::new().major(3)),
    );
    assert_eq!(three.select_version(&tags), Err(InstallError::UnknownVersion));
}

#[test]
fn slot_name_has_ten_digits_of_the_checksum() {
    let name = PkgPart::from_str("gates").unwrap();
    let version = Version::new(1, 0, 2);
    assert_eq!(cache_slot_name(&name, &version, &sum(0x3c)), "gates-1.0.2-3cab000000");
    assert_eq!(CacheSlot::new(&name, &version, &sum(0x3c)).to_string(), "gates-1.0.2-3cab000000");
    // the same package, version and files give the same slot
    assert_eq!(
        cache_slot_name(&name, &version, &sum(0x3c)),
        cache_slot_name(&name, &version, &sum(0x3c))
    );
    assert_ne!(
        cache_slot_name(&name, &version, &sum(0x3c)),
        cache_slot_name(&name, &version, &sum(0x3d))
    );
    assert_eq!(ORBIT_SUM_FILE, ".orbit-checksum");
}

#[test]
fn free_slot_is_created() {
    assert_eq!(Install::begin(false, false), SlotStep::Create);
    assert_eq!(Install::begin(false, true), SlotStep::Create);
}

#[test]
fn forced_install_replaces_the_slot() {
    assert_eq!(Install::begin(true, true), SlotStep::Replace);
}

#[test]
fn intact_slot_is_kept() {
    assert_eq!(Install::begin(true, false), SlotStep::Verify);
    assert_eq!(Install::verify(Some(&sum(7)), &sum(7)), SlotStep::Keep);
}

#[test]
fn corrupt_slot_is_reinstalled() {
    assert_eq!(Install::begin(true, false), SlotStep::Verify);
    assert_eq!(Install::verify(Some(&sum(8)), &sum(7)), SlotStep::Reinstall);
    assert_eq!(Install::verify(None, &sum(7)), SlotStep::Reinstall);
    let name = PkgPart::from_str("gates").unwrap();
    assert_eq!(
        reinstall_notice(&name, &Version::new(1, 0, 2)),
        "info: reinstalling ip 'gates' as version '1.0.2' due to bad checksum"
    );
    // after the slot was filled anew its checksum is that of its files
    assert_eq!(Install::verify(Some(&sum(7)), &sum(7)), SlotStep::Keep);
}

#[test]
fn kept_slot_fails_only_an_exact_request() {
    let latest = Install::new(None, Some("/x".to_string()), None, AnyVersion::Latest);
    assert_eq!(latest.conclude(SlotStep::Keep), Ok(()));
    let major = Install::new(
        None,
        Some("/x".to_string()),
        None,
        AnyVersion::Specific(PartialVersion::new().major(1)),
    );
    assert_eq!(major.conclude(SlotStep::Keep), Ok(()));
    let exact = Install::new(
        None,
        Some("/x".to_string()),
        None,
        AnyVersion::Specific(PartialVersion::new().major(1).minor(0).patch(2)),
    );
    assert_eq!(exact.conclude(SlotStep::Keep), Err(InstallError::AlreadyInstalled));
    assert_eq!(exact.conclude(SlotStep::Create), Ok(()));
    assert_eq!(exact.conclude(SlotStep::Reinstall), Ok(()));
    let name = PkgPart::from_str("gates").unwrap();
    assert_eq!(
        installed_notice(&name, &Version::new(1, 0, 2)),
        "ip 'gates' as version '1.0.2' is already installed"
    );
}

#[test]
fn everything_but_the_git_directory_is_copied() {
    assert!(!is_copied(".git", true));
    assert!(is_copied(".git", false));
    assert!(is_copied(".gitignore", false));
    assert!(is_copied("src", true));
}

fn record(path: &str, bytes: &[u8]) -> FileRecord {
    FileRecord { path: path.to_string(), bytes: bytes.to_vec() }
}

#[test]
fn filled_slot_is_valid() {
    let files = || vec![record("./src/a.vhd", b"entity a"), record("./Orbit.toml", b"[ip]")];
    let installed = checksum(&files()).unwrap();
    let marker = installed.to_string();
    assert_eq!(marker.len(), 64);
    assert!(marker.chars().all(|c| c.is_ascii_digit() || ('a'..='f').contains(&c)));
    let mut slot = files();
    slot.insert(1, record("./.orbit-checksum", marker.as_bytes()));
    let actual = checksum(&without_marker(slot)).unwrap();
    let stored = Sha256Hash::from_str(&marker);
    assert_eq!(stored, Some(installed));
    assert_eq!(Install::verify(stored.as_ref(), &actual), SlotStep::Keep);
    assert_eq!(Install::confirm(stored.as_ref(), &actual), Ok(()));
    assert_eq!(Install::begin(true, false), SlotStep::Verify);
}

#[test]
fn slot_with_other_files_is_not_confirmed() {
    let installed = checksum(&vec![record("./a.vhd", b"entity a")]).unwrap();
    let marker = installed.to_string();
    let slot = vec![record("./.orbit-checksum", marker.as_bytes()), record("./a.vhd", b"entity b")];
    let actual = checksum(&without_marker(slot)).unwrap();
    let stored = Sha256Hash::from_str(&marker);
    assert_eq!(Install::confirm(stored.as_ref(), &actual), Err(InstallError::ChecksumMismatch));
    assert_eq!(Install::confirm(None, &actual), Err(InstallError::ChecksumMismatch));
    assert_eq!(Install::verify(stored.as_ref(), &actual), SlotStep::Reinstall);
}

#[test]
fn marker_is_left_out_of_a_slot() {
    let slot = vec![
        record("./.orbit-checksum", b"x"),
        record("./a", b"1"),
        record(".orbit-checksum", b"y"),
        record("./sub/.orbit-checksum", b"z"),
    ];
    assert_eq!(without_marker(slot), vec![record("./a", b"1"), record("./sub/.orbit-checksum", b"z")]);
}
