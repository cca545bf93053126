use orbit::digest::{Sha256Hash, Uuid};
use orbit::ip::{IpSpec, Source};
use orbit::lockfile::{LockEntry, LockError, LockFile};
use orbit::pkgid::{Id, PkgPart};
use orbit::version::Version;

const DATA1: &str = r#"version = 1

[[ip]]
name = "lab1"
version = "0.5.0"
uuid = "00000000-0000-0000-0000-000000000000"
url = "https://go1.here"
dependencies = [
    "lab4:0.5.19",
    "lab2:1.0.0",
]

[[ip]]
name = "lab2"
version = "1.0.0"
uuid = "00000000-0000-0000-0000-000000000000"
checksum = "0000000000000000000000000000000000000000000000000000000000000000"
url = "https://go2.here"
dependencies = []

[[ip]]
name = "lab3"
version = "2.3.1"
uuid = "00000000-0000-0000-0000-000000000000"
checksum = "0000000000000000000000000000000000000000000000000000000000000000"
dependencies = []

[[ip]]
name = "lab4"
version = "0.5.19"
uuid = "00000000-0000-0000-0000-000000000000"
checksum = "0000000000000000000000000000000000000000000000000000000000000000"
dependencies = ["lab3:2.3.1"]
"#;

fn sample() -> LockFile {
    LockFile::wrap(vec![
        LockEntry::new(
            Id::from_str("lab1").unwrap(),
            Version::from_str("0.5.0").unwrap(),
            Uuid::nil(),
            None,
            Some(Source::from_str("https://go1.here")),
            vec![
                IpSpec::new(
                    PkgPart::from_str("lab4").unwrap(),
                    Version::from_str("0.5.19").unwrap(),
                ),
                IpSpec::new(
                    PkgPart::from_str("lab2").unwrap(),
                    Version::from_str("1.0.0").unwrap(),
                ),
            ],
        ),
        LockEntry::new(
            Id::from_str("lab2").unwrap(),
            Version::from_str("1.0.0").unwrap(),
            Uuid::nil(),
            Some(Sha256Hash::new()),
            Some(Source::from_str("https://go2.here")),
            Vec::new(),
        ),
        LockEntry::new(
            Id::from_str("lab3").unwrap(),
            Version::from_str("2.3.1").unwrap(),
            Uuid::nil(),
            Some(Sha256Hash::new()),
            None,
            Vec::new(),
        ),
        LockEntry::new(
            Id::from_str("lab4").unwrap(),
            Version::from_str("0.5.19").unwrap(),
            Uuid::nil(),
            Some(Sha256Hash::new()),
            None,
            vec![IpSpec::new(
                PkgPart::from_str("lab3").unwrap(),
                Version::from_str("2.3.1").unwrap(),
            )],
        ),
    ])
}

#[test]
fn to_string() {
    let lock = sample();
    println!("{}", &lock.to_string().unwrap());
    assert_eq!(&lock.to_string().unwrap(), DATA1);
}

#[test]
fn from_str() {
    let lock = sample();
    assert_eq!(&LockFile::from_str(&DATA1).unwrap(), &lock);
}

#[test]
fn round_trip_through_text() {
    let lock = sample();
    let text = lock.to_string().unwrap();
    assert_eq!(LockFile::from_str(&text), Ok(lock));
}

#[test]
fn round_trip_through_document() {
    let lock = sample();
    assert_eq!(LockFile::from_document(&lock.to_document()), Some(lock));
}

#[test]
fn from_str_rejects_broken_toml() {
    assert_eq!(LockFile::from_str("version = "), Err(LockError::Syntax));
}

#[test]
fn from_str_rejects_other_documents() {
    assert_eq!(LockFile::from_str("version = 1\n"), Err(LockError::Malformed));
    assert_eq!(
        LockFile::from_str("version = 1\n\n[[ip]]\nname = \"lab1\"\n"),
        Err(LockError::Malformed)
    );
}
