//! Entries of the `mods` directory that come from outside the source tree.
use vstd::prelude::*;
use crate::tree::{Directory, NamedFile, child_slot, file_slot, lemma_file_slot_range};
use crate::resolver::ResolvedJar;
use crate::manifest::{entry_for, sha256_hex_of};

verus! {

/// The decimal digits of `n`, most significant first.
pub open spec fn decimal_spec(n: nat) -> Seq<char>
    decreases n,
{
    if n < 10 {
        seq![digit_char(n)]
    } else {
        decimal_spec(n / 10) + seq![digit_char(n % 10)]
    }
}

/// The character of the decimal digit `d`.
pub open spec fn digit_char(d: nat) -> char {
    if d == 0 { '0' }
    else if d == 1 { '1' }
    else if d == 2 { '2' }
    else if d == 3 { '3' }
    else if d == 4 { '4' }
    else if d == 5 { '5' }
    else if d == 6 { '6' }
    else if d == 7 { '7' }
    else if d == 8 { '8' }
    else { '9' }
}

fn digit_str(d: u32) -> (r: &'static str)
    requires
        d < 10,
    ensures
        r@ == seq![digit_char(d as nat)],
{
    proof {
        reveal_strlit("0");
        reveal_strlit("1");
        reveal_strlit("2");
        reveal_strlit("3");
        reveal_strlit("4");
        reveal_strlit("5");
        reveal_strlit("6");
        reveal_strlit("7");
        reveal_strlit("8");
        reveal_strlit("9");
    }
    let r = if d == 0 { "0" }
    else if d == 1 { "1" }
    else if d == 2 { "2" }
    else if d == 3 { "3" }
    else if d == 4 { "4" }
    else if d == 5 { "5" }
    else if d == 6 { "6" }
    else if d == 7 { "7" }
    else if d == 8 { "8" }
    else { "9" };
    assert(r@ =~= seq![digit_char(d as nat)]);
    r
}

/// `n` in decimal.
pub fn decimal(n: u32) -> (r: String)
    ensures
        r@ == decimal_spec(n as nat),
    decreases n,
{
    if n < 10 {
        String::from_str(digit_str(n))
    } else {
        let r = decimal(n / 10).concat(digit_str(n % 10));
        r
    }
}

/// The CurseForge download URL of file `file_name` with ids `id1` and `id2`.
pub open spec fn curseforge_url_spec(id1: nat, id2: nat, file_name: Seq<char>) -> Seq<char> {
    "https://mediafilez.forgecdn.net/files/"@ + decimal_spec(id1) + seq!['/'] + decimal_spec(id2) + seq!['/'] + file_name
}

/// The CurseForge download URL of file `file_name` with ids `id1` and `id2`.
pub fn curseforge_url(id1: u32, id2: u32, file_name: &String) -> (r: String)
    ensures
        r@ == curseforge_url_spec(id1 as nat, id2 as nat, file_name@),
{
    proof {
        reveal_strlit("/");
    }
    let r = String::from_str("https://mediafilez.forgecdn.net/files/")
        .concat(decimal(id1).as_str())
        .concat("/")
        .concat(decimal(id2).as_str())
        .concat("/")
        .concat(file_name.as_str());
    assert(r@ =~= curseforge_url_spec(id1 as nat, id2 as nat, file_name@));
    r
}

/// A file of a directory as plain values: name, digest, URL.
pub open spec fn file_view(f: NamedFile) -> (Seq<char>, Seq<char>, Seq<char>) {
    (f.name@, f.file.sha@, f.file.url@)
}

/// The files of a directory as plain values.
pub open spec fn files_view(files: Seq<NamedFile>) -> Seq<(Seq<char>, Seq<char>, Seq<char>)> {
    files.map_values(|f: NamedFile| file_view(f))
}

/// Index of the first file named `name` in `fs`, from index `i` on, or -1.
pub open spec fn view_slot(fs: Seq<(Seq<char>, Seq<char>, Seq<char>)>, name: Seq<char>, i: int) -> int
    decreases fs.len() - i,
{
    if i < 0 || i >= fs.len() {
        -1
    } else if fs[i].0 == name {
        i
    } else {
        view_slot(fs, name, i + 1)
    }
}

/// `fs` with file `f` inserted: it replaces the first file of its name, or
/// comes last where there is none.
pub open spec fn insert_view(fs: Seq<(Seq<char>, Seq<char>, Seq<char>)>, f: (Seq<char>, Seq<char>, Seq<char>)) -> Seq<(Seq<char>, Seq<char>, Seq<char>)> {
    let k = view_slot(fs, f.0, 0);
    if k >= 0 {
        fs.update(k, f)
    } else {
        fs.push(f)
    }
}

/// `fs` with the files of `items` inserted one after another.
pub open spec fn insert_all(fs: Seq<(Seq<char>, Seq<char>, Seq<char>)>, items: Seq<(Seq<char>, Seq<char>, Seq<char>)>) -> Seq<(Seq<char>, Seq<char>, Seq<char>)>
    decreases items.len(),
{
    if items.len() == 0 {
        fs
    } else {
        insert_view(insert_all(fs, items.drop_last()), items.last())
    }
}

/// The files that the jars of `jars` become, `contents[i]` being the bytes of
/// `jars[i]`.
pub open spec fn jar_items(jars: Seq<ResolvedJar>, contents: Seq<Vec<u8>>) -> Seq<(Seq<char>, Seq<char>, Seq<char>)> {
    Seq::new(jars.len(), |i: int| (jars[i].filename@, sha256_hex_of(contents[i]@), jars[i].url@))
}

proof fn lemma_slot_view(files: Seq<NamedFile>, name: Seq<char>, i: int)
    requires
        0 <= i,
    ensures
        file_slot(files, name, i) == view_slot(files_view(files), name, i),
    decreases files.len() - i,
{
    if i < files.len() {
        assert(files_view(files)[i] == file_view(files[i]));
        lemma_slot_view(files, name, i + 1);
    }
}

/// Puts the downloaded file `name`, fetched from `url`, into `mods`; a file
/// already there under that name is replaced.
pub fn install_download(mods: &mut Directory, name: String, url: String, contents: &Vec<u8>)
    ensures
        child_slot(old(mods).children@, name@, 0) >= 0
            ==> final(mods).children@ == old(mods).children@.remove(child_slot(old(mods).children@, name@, 0)),
        child_slot(old(mods).children@, name@, 0) < 0 ==> final(mods).children == old(mods).children,
        old(mods).wf() ==> final(mods).wf(),
        files_view(final(mods).files@) == insert_view(files_view(old(mods).files@), (name@, sha256_hex_of(contents@), url@)),
{
    let ghost old_files = mods.files@;
    let e = entry_for(url, contents);
    let ghost nf = NamedFile { name, file: e };
    mods.insert_file(name, e);
    proof {
        lemma_slot_view(old_files, nf.name@, 0);
        lemma_file_slot_range(old_files, nf.name@, 0);
        let k = file_slot(old_files, nf.name@, 0);
        if k >= 0 {
            assert(files_view(mods.files@) =~= files_view(old_files).update(k, file_view(nf)));
        } else {
            assert(files_view(mods.files@) =~= files_view(old_files).push(file_view(nf)));
        }
    }
}

/// Puts the resolved jars into `mods` in order, `contents[i]` being the bytes
/// downloaded for `jars[i]`; a later jar replaces an earlier one of the same
/// file name.
pub fn install_jars(mods: &mut Directory, jars: &Vec<ResolvedJar>, contents: &Vec<Vec<u8>>)
    requires
        jars@.len() == contents@.len(),
    ensures
        old(mods).wf() ==> final(mods).wf(),
        files_view(final(mods).files@) == insert_all(files_view(old(mods).files@), jar_items(jars@, contents@)),
{
    let ghost fs0 = files_view(mods.files@);
    let ghost items = jar_items(jars@, contents@);
    let mut i: usize = 0;
    while i < jars.len()
        invariant
            0 <= i <= jars@.len(),
            jars@.len() == contents@.len(),
            items == jar_items(jars@, contents@),
            old(mods).wf() ==> mods.wf(),
            fs0 == files_view(old(mods).files@),
            files_view(mods.files@) == insert_all(fs0, items.take(i as int)),
        decreases jars@.len() - i,
    {
        install_download(mods, jars[i].filename.clone(), jars[i].url.clone(), &contents[i]);
        proof {
            assert(items.take(i + 1).drop_last() =~= items.take(i as int));
            assert(items.take(i + 1).last() == items[i as int]);
        }
        i = i + 1;
    }
    proof {
        assert(items.take(i as int) =~= items);
    }
}

}
