//! Construction of manifest entries: content digests and download URLs.
use vstd::prelude::*;
use sha2::Digest;
use crate::tree::{Directory, FileEntry, NamedFile, NamedDir};

verus! {

/// The lowercase hex SHA-256 digest of `bytes`, as sha2 computes it.
pub uninterp spec fn sha256_hex_of(bytes: Seq<u8>) -> Seq<char>;

/// The URL that `name` denotes relative to `base`, as url resolves it;
/// `None` where `base` is no absolute URL or the result does not parse.
pub uninterp spec fn url_join_of(base: Seq<char>, name: Seq<char>) -> Option<Seq<char>>;

/// Whether `c` is a lowercase hex digit.
pub open spec fn is_lower_hex(c: char) -> bool {
    ('0' <= c <= '9') || ('a' <= c <= 'f')
}

/// Relies on sha2's `Sha256::digest`, printed with generic-array's `LowerHex`:
/// two lowercase hex digits for each of the 32 bytes of the digest.
#[verifier::external_body]
fn sha256_hex(bytes: &[u8]) -> (r: String)
    ensures
        r@ == sha256_hex_of(bytes@),
        r@.len() == 64,
        forall|i: int| 0 <= i < r@.len() ==> is_lower_hex(#[trigger] r@[i]),
{
    format!("{:x}", sha2::Sha256::digest(bytes))
}

/// Relies on url's `Url::join`, on `base` parsed by `Url::parse`, and the
/// joined URL's serialisation.
#[verifier::external_body]
fn join_url(base: &str, name: &str) -> (r: Option<String>)
    ensures
        url_join_of(base@, name@) == match r {
            Some(s) => Some(s@),
            None => None::<Seq<char>>,
        },
{
    match url::Url::parse(base) {
        Ok(u) => match u.join(name) {
            Ok(j) => Some(j.to_string()),
            Err(_) => None,
        },
        Err(_) => None,
    }
}

/// Why a manifest could not be built.
#[derive(Debug, Clone, PartialEq, Eq)]
pub enum BuildError {
    /// The URL of this entry (a file, or a directory with its trailing `/`)
    /// could not be formed from the base URL.
    BadUrl { name: String },
}

/// The lowercase hex SHA-256 digest of `bytes`.
pub fn digest_hex(bytes: &Vec<u8>) -> (r: String)
    ensures
        r@ == sha256_hex_of(bytes@),
        r@.len() == 64,
        forall|i: int| 0 <= i < r@.len() ==> is_lower_hex(#[trigger] r@[i]),
{
    sha256_hex(bytes.as_slice())
}

/// The entry of a file with contents `contents` at URL `url`.
pub fn entry_for(url: String, contents: &Vec<u8>) -> (r: FileEntry)
    ensures
        r.url == url,
        r.sha@ == sha256_hex_of(contents@),
{
    FileEntry { sha: digest_hex(contents), url }
}

/// The entry of file `name` with contents `contents`, its URL `name` joined
/// to `base`.
pub fn file_entry(base: &String, name: &String, contents: &Vec<u8>) -> (r: Result<FileEntry, BuildError>)
    ensures
        match url_join_of(base@, name@) {
            Some(u) => r is Ok && r->Ok_0.url@ == u && r->Ok_0.sha@ == sha256_hex_of(contents@),
            None => r is Err && r->Err_0 == (BuildError::BadUrl { name: *name }),
        },
{
    match join_url(base.as_str(), name.as_str()) {
        Some(u) => Ok(entry_for(u, contents)),
        None => Err(BuildError::BadUrl { name: name.clone() }),
    }
}

/// The base URL of subdirectory `name`: `name` and a `/` joined to `base`.
pub fn child_base(base: &String, name: &String) -> (r: Result<String, BuildError>)
    ensures
        match url_join_of(base@, name@ + seq!['/']) {
            Some(u) => r is Ok && r->Ok_0@ == u,
            None => r is Err && r->Err_0 == (BuildError::BadUrl { name: *name }),
        },
{
    proof {
        reveal_strlit("/");
    }
    let seg = name.clone().concat("/");
    assert(seg@ =~= name@ + seq!['/']);
    match join_url(base.as_str(), seg.as_str()) {
        Some(u) => Ok(u),
        None => Err(BuildError::BadUrl { name: name.clone() }),
    }
}

/// A regular file read from the source tree.
#[derive(Debug, Clone, PartialEq, Eq)]
pub struct SourceFile {
    pub name: String,
    pub contents: Vec<u8>,
}

/// A directory read from the source tree: its regular files and its
/// subdirectories. Entries of other kinds are not listed.
#[derive(Debug, PartialEq, Eq)]
pub struct SourceDir {
    pub files: Vec<SourceFile>,
    pub dirs: Vec<SourceSubdir>,
}

/// A subdirectory of the source tree under its name.
#[derive(Debug, PartialEq, Eq)]
pub struct SourceSubdir {
    pub name: String,
    pub dir: SourceDir,
}

/// Whether, in every directory of `src`, names are distinct: among files,
/// among subdirectories, and between the two, as in a folder listing.
pub open spec fn source_distinct(src: SourceDir) -> bool
    decreases src,
{
    &&& forall|a: int, b: int| 0 <= a < b < src.files@.len() ==> src.files@[a].name@ != src.files@[b].name@
    &&& forall|a: int, b: int| 0 <= a < b < src.dirs@.len() ==> src.dirs@[a].name@ != src.dirs@[b].name@
    &&& forall|a: int, b: int| 0 <= a < src.files@.len() && 0 <= b < src.dirs@.len()
        ==> src.files@[a].name@ != src.dirs@[b].name@
    &&& forall|i: int| 0 <= i < src.dirs@.len() ==> source_distinct(#[trigger] src.dirs@[i].dir)
}

/// Whether every URL of the manifest of `src` can be formed from `base`.
pub open spec fn urls_ok(src: SourceDir, base: Seq<char>) -> bool
    decreases src,
{
    &&& forall|i: int| 0 <= i < src.files@.len() ==> (#[trigger] url_join_of(base, src.files@[i].name@)) is Some
    &&& forall|i: int| 0 <= i < src.dirs@.len() ==> {
        &&& (#[trigger] url_join_of(base, src.dirs@[i].name@ + seq!['/'])) is Some
        &&& urls_ok(src.dirs@[i].dir, url_join_of(base, src.dirs@[i].name@ + seq!['/'])->Some_0)
    }
}

/// Whether `d` is the manifest of `src` under base URL `base`: one entry per
/// file, in order, with the digest of its contents and its name joined to
/// `base`; one child per subdirectory, in order, built under its own URL.
pub open spec fn built_from(src: SourceDir, base: Seq<char>, d: Directory) -> bool
    decreases src,
{
    &&& d.files@.len() == src.files@.len()
    &&& forall|i: int| 0 <= i < src.files@.len() ==> {
        &&& (#[trigger] d.files@[i]).name@ == src.files@[i].name@
        &&& d.files@[i].file.sha@ == sha256_hex_of(src.files@[i].contents@)
        &&& url_join_of(base, src.files@[i].name@) == Some(d.files@[i].file.url@)
    }
    &&& d.children@.len() == src.dirs@.len()
    &&& forall|i: int| 0 <= i < src.dirs@.len() ==> {
        &&& (#[trigger] d.children@[i]).name@ == src.dirs@[i].name@
        &&& url_join_of(base, src.dirs@[i].name@ + seq!['/']) is Some
        &&& built_from(src.dirs@[i].dir, url_join_of(base, src.dirs@[i].name@ + seq!['/'])->Some_0, d.children@[i].dir)
    }
}

/// Builds the manifest tree of `src` with base URL `base`: each file gets the
/// digest of its contents and its name joined to `base`; each subdirectory is
/// built with its name and a `/` joined to `base`.
pub fn build_directory(src: &SourceDir, base: &String) -> (r: Result<Directory, BuildError>)
    ensures
        r is Ok <==> urls_ok(*src, base@),
        r is Ok ==> built_from(*src, base@, r->Ok_0),
        r is Ok && source_distinct(*src) ==> r->Ok_0.wf(),
    decreases *src,
{
    let mut files: Vec<NamedFile> = Vec::new();
    let mut i: usize = 0;
    while i < src.files.len()
        invariant
            0 <= i <= src.files@.len(),
            files@.len() == i,
            forall|a: int| 0 <= a < i ==> (#[trigger] url_join_of(base@, src.files@[a].name@)) is Some,
            forall|a: int| 0 <= a < i ==> {
                &&& (#[trigger] files@[a]).name@ == src.files@[a].name@
                &&& files@[a].file.sha@ == sha256_hex_of(src.files@[a].contents@)
                &&& url_join_of(base@, src.files@[a].name@) == Some(files@[a].file.url@)
            },
        decreases src.files@.len() - i,
    {
        let f = &src.files[i];
        match file_entry(base, &f.name, &f.contents) {
            Ok(e) => {
                files.push(NamedFile { name: f.name.clone(), file: e });
            },
            Err(err) => {
                return Err(err);
            },
        }
        i = i + 1;
    }
    let mut children: Vec<NamedDir> = Vec::new();
    let mut j: usize = 0;
    while j < src.dirs.len()
        invariant
            0 <= j <= src.dirs@.len(),
            children@.len() == j,
            forall|a: int| 0 <= a < src.files@.len() ==> (#[trigger] url_join_of(base@, src.files@[a].name@)) is Some,
            forall|a: int| 0 <= a < j ==> {
                &&& (#[trigger] url_join_of(base@, src.dirs@[a].name@ + seq!['/'])) is Some
                &&& urls_ok(src.dirs@[a].dir, url_join_of(base@, src.dirs@[a].name@ + seq!['/'])->Some_0)
            },
            forall|a: int| 0 <= a < j ==> source_distinct(src.dirs@[a].dir) ==> (#[trigger] children@[a]).dir.wf(),
            forall|a: int| 0 <= a < j ==> {
                &&& (#[trigger] children@[a]).name@ == src.dirs@[a].name@
                &&& url_join_of(base@, src.dirs@[a].name@ + seq!['/']) is Some
                &&& built_from(src.dirs@[a].dir, url_join_of(base@, src.dirs@[a].name@ + seq!['/'])->Some_0, children@[a].dir)
            },
        decreases src.dirs@.len() - j,
    {
        let s = &src.dirs[j];
        let sub_base = match child_base(base, &s.name) {
            Ok(b) => b,
            Err(err) => {
                return Err(err);
            },
        };
        match build_directory(&s.dir, &sub_base) {
            Ok(d) => {
                children.push(NamedDir { name: s.name.clone(), dir: d });
            },
            Err(err) => {
                return Err(err);
            },
        }
        j = j + 1;
    }
    let d = Directory { files, children };
    proof {
        if source_distinct(*src) {
            assert forall|i: int| 0 <= i < d.children@.len() implies (#[trigger] d.children@[i]).dir.wf() by {
                assert(source_distinct(src.dirs@[i].dir));
            }
            assert(d.names_distinct()) by {
                assert forall|a: int, b: int| 0 <= a < b < d.files@.len() implies d.files@[a].name@ != d.files@[b].name@ by {
                    assert(d.files@[a].name@ == src.files@[a].name@);
                    assert(d.files@[b].name@ == src.files@[b].name@);
                }
                assert forall|a: int, b: int| 0 <= a < b < d.children@.len() implies d.children@[a].name@ != d.children@[b].name@ by {
                    assert(d.children@[a].name@ == src.dirs@[a].name@);
                    assert(d.children@[b].name@ == src.dirs@[b].name@);
                }
                assert forall|a: int, b: int| 0 <= a < d.files@.len() && 0 <= b < d.children@.len()
                    implies d.files@[a].name@ != d.children@[b].name@ by {
                    assert(d.files@[a].name@ == src.files@[a].name@);
                    assert(d.children@[b].name@ == src.dirs@[b].name@);
                }
            }
        }
    }
    Ok(d)
}

}
