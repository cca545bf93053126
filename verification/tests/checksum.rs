use orbit::checksum::{checksum, is_vcs, FileRecord};
use orbit::sha256::{checked_digest, digest};

fn hex(bytes: &[u8]) -> String {
    bytes.iter().map(|b| format!("{:02x}", b)).collect()
}

#[test]
fn digest_of_known_messages() {
    assert_eq!(
        digest(&b"".to_vec()).to_string(),
        "e3b0c44298fc1c149afbf4c8996fb92427ae41e4649b934ca495991b7852b855"
    );
    assert_eq!(
        digest(&b"abc".to_vec()).to_string(),
        "ba7816bf8f01cfea414140de5dae2223b00361a396177a9cb410ff61f20015ad"
    );
    assert_eq!(
        digest(&b"abcdbcdecdefdefgefghfghighijhijkijkljklmklmnlmnomnopnopq".to_vec()).to_string(),
        "248d6a61d20638b8e5c026930c3e6039a33ce45964ff2167f6ecedd419db06c1"
    );
}

#[test]
fn digest_at_the_edges_of_blocks() {
    assert_eq!(
        digest(&vec![0x61u8; 55]).to_string(),
        "9f4390f8d30c2dd92ec9f095b65e2b9ae9b0a925a5258e241c9f1e910f734318"
    );
    assert_eq!(
        digest(&vec![0x61u8; 56]).to_string(),
        "b35439a4ac6f0948b6d6f9e3c6af0f5f590ce20f1bde7090ef7970686ec6738a"
    );
    assert_eq!(
        digest(&vec![0x61u8; 57]).to_string(),
        "f13b2d724659eb3bf47f2dd6af1accc87b81f09f59f2b75e5c0bed6589dfe8c6"
    );
    assert_eq!(
        digest(&vec![0x61u8; 63]).to_string(),
        "7d3e74a05d7db15bce4ad9ec0658ea98e3f06eeecf16b4c6fff2da457ddc2f34"
    );
    assert_eq!(
        digest(&vec![0x61u8; 64]).to_string(),
        "ffe054fe7ae0cb6dc65c3af9b61d5209f439851db43d0ba5997337df154668eb"
    );
    assert_eq!(
        digest(&vec![0x61u8; 65]).to_string(),
        "635361c48bb9eab14198e76ea8ab7f1a41685d6ad62aa9146d301d4f17eb0ae0"
    );
    assert_eq!(
        digest(&vec![0x61u8; 119]).to_string(),
        "31eba51c313a5c08226adf18d4a359cfdfd8d2e816b13f4af952f7ea6584dcfb"
    );
    assert_eq!(
        digest(&vec![0x61u8; 120]).to_string(),
        "2f3d335432c70b580af0e8e1b3674a7c020d683aa5f73aaaedfdc55af904c21c"
    );
    assert_eq!(
        digest(&vec![0x61u8; 128]).to_string(),
        "6836cf13bac400e9105071cd6af47084dfacad4e5e302c94bfed24e013afb73e"
    );
}

#[test]
fn digest_of_a_long_message() {
    assert_eq!(
        digest(&vec![0x61u8; 1000000]).to_string(),
        "cdc76e5c9914fb9281a1c7e284d73e67f1809a48a497200e046d39ccc7112cd0"
    );
    let bytes: Vec<u8> = (0..768).map(|i| (i % 256) as u8).collect();
    assert_eq!(
        hex(checked_digest(&bytes).unwrap().as_bytes()),
        "f3a25aa93aa2fbba28d79260535bbd6a5eb0fc1c24a8b0f04e12b484c1dfe363"
    );
}

fn file(path: &str, bytes: &[u8]) -> FileRecord {
    FileRecord { path: path.to_string(), bytes: bytes.to_vec() }
}

#[test]
fn checksum_sorts_files_and_leaves_git_out() {
    let files = vec![
        file("src/\u{e9}.vhd", b"entity"),
        file("b.txt", b"B"),
        file(".git/config", b"x"),
        file("a.txt", b"A"),
        file("./.git/objects/00", b"y"),
    ];
    let expected = "a0276eec6568331ea1c45d5f2134821bce2a1796fbe12b3db2be709ad364c829";
    assert_eq!(checksum(&files).unwrap().to_string(), expected);
    // the order of the listing and what .git holds do not matter
    let again = vec![
        file("a.txt", b"A"),
        file(".git/config", b"changed"),
        file("src/\u{e9}.vhd", b"entity"),
        file("b.txt", b"B"),
    ];
    assert_eq!(checksum(&again).unwrap().to_string(), expected);
    // a changed file changes the checksum
    let changed = vec![file("a.txt", b"a"), file("src/\u{e9}.vhd", b"entity"), file("b.txt", b"B")];
    assert_ne!(checksum(&changed).unwrap().to_string(), expected);
    // and so does a renamed one
    let renamed = vec![file("a.txt", b"A"), file("src/e.vhd", b"entity"), file("b.txt", b"B")];
    assert_ne!(checksum(&renamed).unwrap().to_string(), expected);
}

#[test]
fn checksum_of_no_files_is_the_digest_of_nothing() {
    assert_eq!(
        checksum(&Vec::new()).unwrap().to_string(),
        "e3b0c44298fc1c149afbf4c8996fb92427ae41e4649b934ca495991b7852b855"
    );
    assert_eq!(checksum(&vec![file(".git", b"")]), checksum(&Vec::new()));
}

#[test]
fn git_paths_are_told() {
    assert!(is_vcs(".git"));
    assert!(is_vcs("./.git"));
    assert!(is_vcs(".git/HEAD"));
    assert!(is_vcs("./.git/refs/tags/1.0.0"));
    assert!(!is_vcs(".gitignore"));
    assert!(!is_vcs("src/.git/x"));
    assert!(!is_vcs("git"));
    assert!(!is_vcs(""));
}
