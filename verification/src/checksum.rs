//! The checksum of a directory: one digest over the names and the digests
//! of its files.

use vstd::prelude::*;
use crate::digest::Sha256Hash;
use crate::graph::ints;
use crate::order::{
    is_stable_sort, keys_view, lemma_stable_sort_unique, stable_sort, KeyView, SortKey,
};
use crate::sha256::{checked_digest, sha256};
use crate::text::{chars_of, starts_with};
use crate::version::Version;

verus! {

/// A file of a directory: its path from the directory and its bytes.
#[derive(Debug, PartialEq, Eq)]
pub struct FileRecord {
    pub path: String,
    pub bytes: Vec<u8>,
}

/// The mathematical value of a `FileRecord`.
pub struct FileRecordView {
    pub path: Seq<char>,
    pub bytes: Seq<u8>,
}

impl FileRecord {
    /// The mathematical value.
    pub open spec fn view(&self) -> FileRecordView {
        FileRecordView { path: self.path@, bytes: self.bytes@ }
    }
}

/// The values of `files`.
pub open spec fn records_view(files: Seq<FileRecord>) -> Seq<FileRecordView> {
    Seq::new(files.len(), |i: int| files[i]@)
}

/// `s` begins with `prefix`.
pub open spec fn begins_with(s: Seq<char>, prefix: Seq<char>) -> bool {
    prefix.len() <= s.len() && s.take(prefix.len() as int) == prefix
}

/// Whether the path leads into the directory `.git` or is it.
pub open spec fn is_vcs_path(path: Seq<char>) -> bool {
    path == ".git"@ || path == "./.git"@ || begins_with(path, ".git/"@) || begins_with(
        path,
        "./.git/"@,
    )
}

/// The places of the files among the first `upto` that belong to the
/// checksum: those outside the directory `.git`.
pub open spec fn counted(files: Seq<FileRecordView>, upto: int) -> Seq<int>
    decreases upto,
{
    if upto <= 0 {
        Seq::empty()
    } else if is_vcs_path(files[upto - 1].path) {
        counted(files, upto - 1)
    } else {
        counted(files, upto - 1).push(upto - 1)
    }
}

/// The keys that the counted files are sorted by: their paths.
pub open spec fn path_keys(files: Seq<FileRecordView>, places: Seq<int>) -> Seq<KeyView> {
    Seq::new(
        places.len(),
        |i: int|
            KeyView {
                name: files[places[i]].path,
                version: Version { major: 0, minor: 0, patch: 0 },
            },
    )
}

/// What one file adds to what is digested: the bytes of its path in UTF-8
/// and the digest of its bytes.
pub open spec fn tuple_of(file: FileRecordView) -> Seq<u8> {
    vstd::utf8::encode_utf8(file.path) + sha256(file.bytes)
}

/// What the files at `places`, taken in the order of `p`, add.
pub open spec fn tuples(files: Seq<FileRecordView>, places: Seq<int>, p: Seq<int>) -> Seq<u8>
    decreases p.len(),
{
    if p.len() == 0 {
        Seq::empty()
    } else {
        tuples(files, places, p.drop_last()) + tuple_of(files[places[p.last()]])
    }
}

/// Most bytes that can be digested.
pub open spec fn limit() -> int {
    usize::MAX - 72
}

/// A longer run of files adds no fewer bytes.
pub proof fn lemma_tuples_grow(
    files: Seq<FileRecordView>,
    places: Seq<int>,
    p: Seq<int>,
    upto: int,
)
    requires
        0 <= upto <= p.len(),
    ensures
        tuples(files, places, p.take(upto)).len() <= tuples(files, places, p).len(),
    decreases p.len() - upto,
{
    if upto < p.len() {
        lemma_tuples_grow(files, places, p, upto + 1);
        assert(p.take(upto + 1).drop_last() =~= p.take(upto));
    } else {
        assert(p.take(upto) =~= p);
    }
}

/// The bytes of a checksum that may be missing.
pub open spec fn sum_view(r: Option<Sha256Hash>) -> Option<Seq<u8>> {
    match r {
        Some(h) => Some(h@),
        None => None,
    }
}

/// One of the files at `places` that `p` names is too long to be
/// digested.
pub open spec fn has_long_file(files: Seq<FileRecordView>, places: Seq<int>, p: Seq<int>) -> bool {
    exists|k: int| 0 <= k < p.len() && (#[trigger] files[places[p[k]]]).bytes.len() > limit()
}

/// `r` is the checksum of the directory with the files `files`, whose
/// counted files come in the order `p`: `p` sorts them by their paths, and
/// `r` is the digest of what they add, or nothing where a file or what
/// they add is too long to be digested.
pub open spec fn is_checksum(files: Seq<FileRecordView>, p: Seq<int>, r: Option<Seq<u8>>) -> bool {
    let places = counted(files, files.len() as int);
    is_stable_sort(path_keys(files, places), p) && match r {
        Some(h) => h == sha256(tuples(files, places, p)) && tuples(files, places, p).len()
            <= limit() && !has_long_file(files, places, p),
        None => tuples(files, places, p).len() > limit() || has_long_file(files, places, p),
    }
}

/// A directory has one checksum: the same files give the same checksum,
/// or none, whenever it is computed.
pub proof fn lemma_checksum_unique(
    files: Seq<FileRecordView>,
    p: Seq<int>,
    q: Seq<int>,
    a: Option<Seq<u8>>,
    b: Option<Seq<u8>>,
)
    requires
        is_checksum(files, p, a),
        is_checksum(files, q, b),
    ensures
        p == q,
        a == b,
{
    lemma_stable_sort_unique(path_keys(files, counted(files, files.len() as int)), p, q);
}

/// Whether the path is that of the file in which a slot holds its
/// checksum.
pub open spec fn is_marker_path(path: Seq<char>) -> bool {
    path == ".orbit-checksum"@ || path == "./.orbit-checksum"@
}

/// The places of the files among the first `upto` that are not the file
/// in which a slot holds its checksum.
pub open spec fn unmarked(files: Seq<FileRecordView>, upto: int) -> Seq<int>
    decreases upto,
{
    if upto <= 0 {
        Seq::empty()
    } else if is_marker_path(files[upto - 1].path) {
        unmarked(files, upto - 1)
    } else {
        unmarked(files, upto - 1).push(upto - 1)
    }
}

/// The files of `files` that are not the file in which a slot holds its
/// checksum, in their order.
pub open spec fn kept_files(files: Seq<FileRecordView>) -> Seq<FileRecordView> {
    Seq::new(
        unmarked(files, files.len() as int).len(),
        |i: int| files[unmarked(files, files.len() as int)[i]],
    )
}

/// The files of a slot without the file that holds the slot's checksum:
/// what the checksum of the slot is made of.
pub fn without_marker(files: Vec<FileRecord>) -> (kept: Vec<FileRecord>)
    ensures
        records_view(kept@) == kept_files(records_view(files@)),
        kept.len() == unmarked(records_view(files@), files.len() as int).len(),
        forall|i: int|
            0 <= i < kept.len() ==> (#[trigger] kept[i])@ == records_view(files@)[unmarked(
                records_view(files@),
                files.len() as int,
            )[i]],
{
    let ghost fv = records_view(files@);
    let mut kept: Vec<FileRecord> = Vec::new();
    let a = String::from_str(".orbit-checksum");
    let b = String::from_str("./.orbit-checksum");
    for f in it: files.into_iter()
        invariant
            it.seq() == files@,
            fv == records_view(files@),
            a@ == ".orbit-checksum"@,
            b@ == "./.orbit-checksum"@,
            kept.len() == unmarked(fv, it.index() as int).len(),
            forall|i: int|
                0 <= i < kept.len() ==> (#[trigger] kept[i])@ == fv[unmarked(fv, it.index() as int)[i]],
    {
        assert(fv[it.index() as int] == f@);
        let is_marker = f.path == a || f.path == b;
        if !is_marker {
            kept.push(f);
        }
    }
    assert(records_view(kept@) =~= kept_files(fv));
    kept
}

/// Whether the path leads into the directory `.git` or is it.
pub fn is_vcs(path: &str) -> (r: bool)
    ensures
        r == is_vcs_path(path@),
{
    let chars = chars_of(path);
    let a = chars_of(".git");
    let b = chars_of("./.git");
    let c = chars_of(".git/");
    let d = chars_of("./.git/");
    crate::text::chars_eq(&chars, &a) || crate::text::chars_eq(&chars, &b) || starts_with(
        &chars,
        &c,
    ) || starts_with(&chars, &d)
}

/// The checksum of a directory from its files: the files outside `.git`
/// are put in ascending order of their paths, and the paths and the
/// digests of the files, one after the other, are digested. `None` when
/// a file or what the files add is too long to be digested.
pub fn checksum(files: &Vec<FileRecord>) -> (r: Option<Sha256Hash>)
    ensures
        exists|p: Seq<int>| #[trigger] is_checksum(records_view(files@), p, sum_view(r)),
{
    let ghost fv = records_view(files@);
    let mut places: Vec<usize> = Vec::new();
    let mut i: usize = 0;
    assert(ints(places@) =~= counted(fv, 0));
    while i < files.len()
        invariant
            i <= files.len(),
            fv == records_view(files@),
            ints(places@) == counted(fv, i as int),
            forall|j: int| 0 <= j < places.len() ==> places[j] < i,
        decreases files.len() - i,
    {
        assert(fv[i as int] == files[i as int]@);
        if !is_vcs(files[i].path.as_str()) {
            let ghost before = ints(places@);
            places.push(i);
            assert(ints(places@) =~= before.push(i as int));
        }
        i += 1;
    }
    let ghost pl = ints(places@);
    let mut keys: Vec<SortKey> = Vec::new();
    let mut k: usize = 0;
    while k < places.len()
        invariant
            k <= places.len(),
            fv == records_view(files@),
            pl == ints(places@),
            forall|j: int| 0 <= j < places.len() ==> places[j] < files.len(),
            keys.len() == k,
            forall|j: int| 0 <= j < k ==> keys[j]@ == path_keys(fv, pl)[j],
        decreases places.len() - k,
    {
        assert(fv[places[k as int] as int] == files[places[k as int] as int]@);
        assert(pl[k as int] == places[k as int]);
        keys.push(
            SortKey { name: chars_of(files[places[k]].path.as_str()), version: Version::new(0, 0, 0) },
        );
        k += 1;
    }
    assert(keys_view(keys@) =~= path_keys(fv, pl));
    let order = stable_sort(&keys);
    let ghost p = ints(order@);
    let mut buffer: Vec<u8> = Vec::new();
    let mut n: usize = 0;
    assert(p.take(0) =~= Seq::empty());
    while n < order.len()
        invariant
            n <= order.len(),
            fv == records_view(files@),
            pl == ints(places@),
            p == ints(order@),
            order.len() == places.len(),
            forall|j: int| 0 <= j < places.len() ==> places[j] < files.len(),
            is_stable_sort(path_keys(fv, pl), p),
            pl == counted(fv, fv.len() as int),
            buffer@ == tuples(fv, pl, p.take(n as int)),
            forall|k: int| 0 <= k < n ==> (#[trigger] fv[pl[p[k]]]).bytes.len() <= limit(),
        decreases order.len() - n,
    {
        assert(0 <= p[n as int] < places.len());
        let at = places[order[n]];
        let file = &files[at];
        assert(fv[at as int] == file@);
        assert(pl[p[n as int]] == at);
        proof {
            let next = p.take(n + 1);
            assert(next.drop_last() =~= p.take(n as int));
            assert(next.last() == p[n as int]);
            lemma_tuples_grow(fv, pl, p, n + 1);
        }
        let sum = match checked_digest(&file.bytes) {
            Some(sum) => sum,
            None => {
                proof {
                    assert(fv[pl[p[n as int]]].bytes.len() > limit());
                    assert(has_long_file(fv, pl, p));
                    assert(is_checksum(fv, p, None));
                }
                return None;
            },
        };
        let name = file.path.as_str().as_bytes_vec();
        let digest = sum.as_bytes();
        if name.len() > usize::MAX - 72 - 32 || buffer.len() > usize::MAX - 72 - 32 - name.len() {
            proof {
                assert(tuples(fv, pl, p.take(n + 1)).len() == buffer.len() + name.len() + 32);
                assert(is_checksum(fv, p, None));
            }
            return None;
        }
        let ghost before = buffer@;
        let mut j: usize = 0;
        while j < name.len()
            invariant
                j <= name.len(),
                buffer@ == before + name@.take(j as int),
            decreases name.len() - j,
        {
            buffer.push(name[j]);
            assert(buffer@ =~= before + name@.take(j + 1));
            j += 1;
        }
        assert(name@.take(name.len() as int) =~= name@);
        let mut j: usize = 0;
        while j < 32
            invariant
                j <= 32,
                digest.len() == 32,
                buffer@ == before + name@ + digest@.take(j as int),
            decreases 32 - j,
        {
            buffer.push(digest[j]);
            assert(buffer@ =~= before + name@ + digest@.take(j + 1));
            j += 1;
        }
        proof {
            assert(digest@.take(32) =~= digest@);
            assert(buffer@ =~= before + tuple_of(fv[at as int]));
        }
        n += 1;
    }
    proof {
        assert(p.take(order.len() as int) =~= p);
    }
    let r = checked_digest(&buffer);
    proof {
        assert(is_checksum(fv, p, sum_view(r)));
    }
    r
}

} // verus!
