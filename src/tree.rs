//! The content tree: a directory of named files, each with a content digest
//! and a download URL, and named subdirectories.
use vstd::prelude::*;

verus! {

/// A file of the tree: the lowercase hex SHA-256 digest of its bytes and the
/// URL they are downloaded from.
#[derive(Debug, Clone, PartialEq, Eq)]
pub struct FileEntry {
    pub sha: String,
    pub url: String,
}

/// A file under its name.
#[derive(Debug, Clone, PartialEq, Eq)]
pub struct NamedFile {
    pub name: String,
    pub file: FileEntry,
}

/// A subdirectory under its name.
#[derive(Debug, PartialEq, Eq)]
pub struct NamedDir {
    pub name: String,
    pub dir: Directory,
}

/// A node of the content tree. Within one node, names of files are unique
/// and names of subdirectories are unique.
#[derive(Debug, PartialEq, Eq)]
pub struct Directory {
    pub files: Vec<NamedFile>,
    pub children: Vec<NamedDir>,
}

/// A file of the tree with its path relative to the root, the names of its
/// directories each followed by `/`.
#[derive(Debug, Clone, PartialEq, Eq)]
pub struct WalkEntry {
    pub path: String,
    pub file: FileEntry,
}

/// Index of the first file named `name`, from index `i` on, or -1.
pub open spec fn file_slot(files: Seq<NamedFile>, name: Seq<char>, i: int) -> int
    decreases files.len() - i,
{
    if i < 0 || i >= files.len() {
        -1
    } else if files[i].name@ == name {
        i
    } else {
        file_slot(files, name, i + 1)
    }
}

/// Index of the first subdirectory named `name`, from index `i` on, or -1.
pub open spec fn child_slot(children: Seq<NamedDir>, name: Seq<char>, i: int) -> int
    decreases children.len() - i,
{
    if i < 0 || i >= children.len() {
        -1
    } else if children[i].name@ == name {
        i
    } else {
        child_slot(children, name, i + 1)
    }
}

impl Directory {
    /// Within this node, no two files share a name, no two subdirectories
    /// share a name, and no name is both a file's and a subdirectory's.
    pub open spec fn names_distinct(&self) -> bool {
        &&& forall|a: int, b: int| 0 <= a < b < self.files@.len() ==> self.files@[a].name@ != self.files@[b].name@
        &&& forall|a: int, b: int| 0 <= a < b < self.children@.len() ==> self.children@[a].name@ != self.children@[b].name@
        &&& forall|a: int, b: int| 0 <= a < self.files@.len() && 0 <= b < self.children@.len()
            ==> self.files@[a].name@ != self.children@[b].name@
    }

    /// Every node of the tree has distinct names.
    pub open spec fn wf(&self) -> bool
        decreases *self,
    {
        &&& self.names_distinct()
        &&& forall|i: int| 0 <= i < self.children@.len() ==> (#[trigger] self.children@[i]).dir.wf()
    }
}

/// The files of the tree `d`, depth first: the node's own files in order,
/// then each subdirectory's files, paths prefixed by `prefix`.
pub open spec fn walk_dir(d: Directory, prefix: Seq<char>) -> Seq<(Seq<char>, FileEntry)>
    decreases d, 1nat, 0nat,
{
    d.files@.map_values(|f: NamedFile| (prefix + f.name@, f.file)) + walk_children(d, prefix, 0)
}

/// The files of the subdirectories of `d` from index `i` on.
pub open spec fn walk_children(d: Directory, prefix: Seq<char>, i: nat) -> Seq<(Seq<char>, FileEntry)>
    decreases d, 0nat, d.children@.len() - i,
{
    if i >= d.children@.len() {
        Seq::empty()
    } else {
        let c = d.children@[i as int];
        walk_dir(c.dir, prefix + c.name@ + seq!['/']) + walk_children(d, prefix, i + 1)
    }
}

/// What a list of walk entries says: paths and files.
pub open spec fn walk_view(s: Seq<WalkEntry>) -> Seq<(Seq<char>, FileEntry)> {
    s.map_values(|e: WalkEntry| (e.path@, e.file))
}

/// The first file named `name` from `i` on is absent (-1) or at an index
/// in range that holds that name.
pub proof fn lemma_file_slot_range(files: Seq<NamedFile>, name: Seq<char>, i: int)
    requires
        0 <= i,
    ensures
        file_slot(files, name, i) == -1 || (i <= file_slot(files, name, i) < files.len()
            && files[file_slot(files, name, i)].name@ == name),
    decreases files.len() - i,
{
    if i < files.len() && files[i].name@ != name {
        lemma_file_slot_range(files, name, i + 1);
    }
}

/// Where the search finds no file named `name`, none from `i` on has it.
pub proof fn lemma_file_slot_absent(files: Seq<NamedFile>, name: Seq<char>, i: int)
    requires
        0 <= i,
        file_slot(files, name, i) == -1,
    ensures
        forall|j: int| i <= j < files.len() ==> (#[trigger] files[j]).name@ != name,
    decreases files.len() - i,
{
    if i < files.len() {
        lemma_file_slot_absent(files, name, i + 1);
    }
}

/// Where the search finds no subdirectory named `name`, none from `i` on has it.
pub proof fn lemma_child_slot_absent(children: Seq<NamedDir>, name: Seq<char>, i: int)
    requires
        0 <= i,
        child_slot(children, name, i) == -1,
    ensures
        forall|j: int| i <= j < children.len() ==> (#[trigger] children[j]).name@ != name,
    decreases children.len() - i,
{
    if i < children.len() {
        lemma_child_slot_absent(children, name, i + 1);
    }
}

proof fn lemma_child_slot_range(children: Seq<NamedDir>, name: Seq<char>, i: int)
    requires
        0 <= i,
    ensures
        child_slot(children, name, i) == -1 || (i <= child_slot(children, name, i) < children.len()
            && children[child_slot(children, name, i)].name@ == name),
    decreases children.len() - i,
{
    if i < children.len() && children[i].name@ != name {
        lemma_child_slot_range(children, name, i + 1);
    }
}

impl FileEntry {
    /// A copy of this entry.
    pub fn copy(&self) -> (r: FileEntry)
        ensures
            r == *self,
    {
        FileEntry { sha: self.sha.clone(), url: self.url.clone() }
    }
}

impl Directory {
    /// The empty directory.
    pub fn new() -> (r: Directory)
        ensures
            r.files@.len() == 0,
            r.children@.len() == 0,
            r.wf(),
    {
        Directory { files: Vec::new(), children: Vec::new() }
    }

    /// Position of the file named `name`.
    pub fn find_file(&self, name: &String) -> (r: Option<usize>)
        ensures
            file_slot(self.files@, name@, 0) == match r {
                Some(k) => k as int,
                None => -1,
            },
            r is Some ==> r->Some_0 < self.files@.len(),
    {
        proof {
            lemma_file_slot_range(self.files@, name@, 0);
        }
        let mut i: usize = 0;
        while i < self.files.len()
            invariant
                0 <= i <= self.files@.len(),
                file_slot(self.files@, name@, 0) == file_slot(self.files@, name@, i as int),
            decreases self.files@.len() - i,
        {
            if self.files[i].name == *name {
                return Some(i);
            }
            i = i + 1;
        }
        None
    }

    /// Position of the subdirectory named `name`.
    pub fn find_child(&self, name: &String) -> (r: Option<usize>)
        ensures
            child_slot(self.children@, name@, 0) == match r {
                Some(k) => k as int,
                None => -1,
            },
            r is Some ==> r->Some_0 < self.children@.len(),
    {
        proof {
            lemma_child_slot_range(self.children@, name@, 0);
        }
        let mut i: usize = 0;
        while i < self.children.len()
            invariant
                0 <= i <= self.children@.len(),
                child_slot(self.children@, name@, 0) == child_slot(self.children@, name@, i as int),
            decreases self.children@.len() - i,
        {
            if self.children[i].name == *name {
                return Some(i);
            }
            i = i + 1;
        }
        None
    }

    /// Inserts a file under `name`; a file already there is replaced, and a
    /// subdirectory of that name is removed.
    pub fn insert_file(&mut self, name: String, file: FileEntry)
        ensures
            child_slot(old(self).children@, name@, 0) >= 0
                ==> final(self).children@ == old(self).children@.remove(child_slot(old(self).children@, name@, 0)),
            child_slot(old(self).children@, name@, 0) < 0 ==> final(self).children == old(self).children,
            file_slot(old(self).files@, name@, 0) >= 0 ==> final(self).files@ == old(self).files@.update(
                file_slot(old(self).files@, name@, 0),
                NamedFile { name, file },
            ),
            file_slot(old(self).files@, name@, 0) < 0 ==> final(self).files@ == old(self).files@.push(NamedFile { name, file }),
            old(self).wf() ==> final(self).wf(),
    {
        let ghost pre = *self;
        let _ = self.take_child(&name);
        proof {
            lemma_file_slot_range(self.files@, name@, 0);
            if file_slot(self.files@, name@, 0) == -1 {
                lemma_file_slot_absent(self.files@, name@, 0);
            }
            lemma_child_slot_range(pre.children@, name@, 0);
            if child_slot(pre.children@, name@, 0) == -1 {
                lemma_child_slot_absent(pre.children@, name@, 0);
            }
        }
        match self.find_file(&name) {
            Some(k) => {
                self.files.set(k, NamedFile { name, file });
            },
            None => {
                self.files.push(NamedFile { name, file });
            },
        }
        proof {
            if pre.wf() {
                assert forall|j: int| 0 <= j < self.children@.len() implies (#[trigger] self.children@[j]).name@ != name@ by {
                    let k = child_slot(pre.children@, name@, 0);
                    if k >= 0 {
                        if j < k {
                            assert(self.children@[j] == pre.children@[j]);
                        } else {
                            assert(self.children@[j] == pre.children@[j + 1]);
                        }
                    }
                }
                assert forall|i: int| 0 <= i < self.children@.len() implies (#[trigger] self.children@[i]).dir.wf() by {
                    let k = child_slot(pre.children@, name@, 0);
                    if k >= 0 {
                        if i < k {
                            assert(self.children@[i] == pre.children@[i]);
                        } else {
                            assert(self.children@[i] == pre.children@[i + 1]);
                        }
                    }
                }
            }
        }
    }

    /// Removes the file named `name`, if there is one.
    pub fn remove_file(&mut self, name: &String)
        ensures
            final(self).children == old(self).children,
            file_slot(old(self).files@, name@, 0) >= 0
                ==> final(self).files@ == old(self).files@.remove(file_slot(old(self).files@, name@, 0)),
            file_slot(old(self).files@, name@, 0) < 0 ==> final(self).files == old(self).files,
    {
        match self.find_file(name) {
            Some(k) => {
                let _ = self.files.remove(k);
            },
            None => {},
        }
    }

    /// Inserts a subdirectory under `name`; one already there is replaced,
    /// and a file of that name is removed.
    pub fn insert_child(&mut self, name: String, dir: Directory)
        ensures
            file_slot(old(self).files@, name@, 0) >= 0
                ==> final(self).files@ == old(self).files@.remove(file_slot(old(self).files@, name@, 0)),
            file_slot(old(self).files@, name@, 0) < 0 ==> final(self).files == old(self).files,
            child_slot(old(self).children@, name@, 0) >= 0 ==> final(self).children@ == old(self).children@.update(
                child_slot(old(self).children@, name@, 0),
                NamedDir { name, dir },
            ),
            child_slot(old(self).children@, name@, 0) < 0 ==> final(self).children@ == old(self).children@.push(NamedDir { name, dir }),
            old(self).wf() && dir.wf() ==> final(self).wf(),
    {
        let ghost pre = *self;
        self.remove_file(&name);
        proof {
            lemma_child_slot_range(self.children@, name@, 0);
            if child_slot(self.children@, name@, 0) == -1 {
                lemma_child_slot_absent(self.children@, name@, 0);
            }
            lemma_file_slot_range(pre.files@, name@, 0);
            if file_slot(pre.files@, name@, 0) == -1 {
                lemma_file_slot_absent(pre.files@, name@, 0);
            }
        }
        let ghost d = dir;
        match self.find_child(&name) {
            Some(k) => {
                self.children.set(k, NamedDir { name, dir });
            },
            None => {
                self.children.push(NamedDir { name, dir });
            },
        }
        proof {
            if pre.wf() && d.wf() {
                assert forall|j: int| 0 <= j < self.files@.len() implies (#[trigger] self.files@[j]).name@ != name@ by {
                    let k = file_slot(pre.files@, name@, 0);
                    if k >= 0 {
                        if j < k {
                            assert(self.files@[j] == pre.files@[j]);
                        } else {
                            assert(self.files@[j] == pre.files@[j + 1]);
                        }
                    }
                }
                assert forall|i: int| 0 <= i < self.children@.len() implies (#[trigger] self.children@[i]).dir.wf() by {
                    if i < pre.children@.len() && self.children@[i] == pre.children@[i] {
                    }
                }
            }
        }
    }

    /// Removes the subdirectory named `name` and returns it; the empty
    /// directory where there is none.
    pub fn take_child(&mut self, name: &String) -> (r: Directory)
        ensures
            final(self).files == old(self).files,
            child_slot(old(self).children@, name@, 0) >= 0 ==> {
                &&& r == old(self).children@[child_slot(old(self).children@, name@, 0)].dir
                &&& final(self).children@ == old(self).children@.remove(child_slot(old(self).children@, name@, 0))
            },
            child_slot(old(self).children@, name@, 0) < 0 ==> {
                &&& final(self).children == old(self).children
                &&& r.files@.len() == 0
                &&& r.children@.len() == 0
            },
            old(self).wf() ==> final(self).wf() && r.wf(),
    {
        match self.find_child(name) {
            Some(k) => {
                let c = self.children.remove(k);
                c.dir
            },
            None => Directory::new(),
        }
    }

    /// Appends the files of this tree to `out`, depth first, each path
    /// prefixed by `prefix`.
    pub fn walk_into(&self, prefix: &String, out: &mut Vec<WalkEntry>)
        ensures
            walk_view(final(out)@) == walk_view(old(out)@) + walk_dir(*self, prefix@),
        decreases *self,
    {
        let ghost out0 = walk_view(out@);
        let ghost files_part = self.files@.map_values(|f: NamedFile| (prefix@ + f.name@, f.file));
        let mut i: usize = 0;
        while i < self.files.len()
            invariant
                0 <= i <= self.files@.len(),
                files_part == self.files@.map_values(|f: NamedFile| (prefix@ + f.name@, f.file)),
                walk_view(out@) == out0 + files_part.take(i as int),
            decreases self.files@.len() - i,
        {
            let path = prefix.clone().concat(self.files[i].name.as_str());
            let e = WalkEntry { path, file: self.files[i].file.copy() };
            let ghost before = out@;
            out.push(e);
            proof {
                assert(walk_view(out@) =~= walk_view(before).push((e.path@, e.file)));
                assert(files_part.take(i + 1) =~= files_part.take(i as int).push(files_part[i as int]));
            }
            i = i + 1;
        }
        proof {
            assert(files_part.take(i as int) =~= files_part);
            reveal_strlit("/");
        }
        let mut j: usize = 0;
        while j < self.children.len()
            invariant
                0 <= j <= self.children@.len(),
                walk_view(out@) + walk_children(*self, prefix@, j as nat)
                    == out0 + files_part + walk_children(*self, prefix@, 0),
                walk_dir(*self, prefix@) == files_part + walk_children(*self, prefix@, 0),
                "/"@ == seq!['/'],
            decreases self.children@.len() - j,
        {
            let sub = prefix.clone().concat(self.children[j].name.as_str()).concat("/");
            let ghost before = walk_view(out@);
            self.children[j].dir.walk_into(&sub, out);
            proof {
                let c = self.children@[j as int];
                assert(sub@ == prefix@ + c.name@ + seq!['/']);
                assert(walk_children(*self, prefix@, j as nat)
                    == walk_dir(c.dir, prefix@ + c.name@ + seq!['/']) + walk_children(*self, prefix@, (j + 1) as nat));
                assert(walk_view(out@) + walk_children(*self, prefix@, (j + 1) as nat)
                    =~= before + walk_children(*self, prefix@, j as nat));
            }
            j = j + 1;
        }
        proof {
            assert(walk_view(out@) + walk_children(*self, prefix@, j as nat) =~= walk_view(out@));
        }
    }

    /// The files of the tree, depth first, with their paths from the root.
    pub fn walk(&self) -> (r: Vec<WalkEntry>)
        ensures
            walk_view(r@) == walk_dir(*self, Seq::empty()),
    {
        let mut out: Vec<WalkEntry> = Vec::new();
        let prefix = String::new();
        self.walk_into(&prefix, &mut out);
        proof {
            assert(walk_view(Seq::<WalkEntry>::empty()) + walk_dir(*self, Seq::empty()) =~= walk_dir(*self, Seq::empty()));
        }
        out
    }
}


/// Whether `n` holds no `/`.
pub open spec fn plain_name(n: Seq<char>) -> bool {
    forall|k: int| 0 <= k < n.len() ==> n[k] != '/'
}

/// Whether every name in the tree `d` is plain.
pub open spec fn plain_names(d: Directory) -> bool
    decreases d,
{
    &&& forall|i: int| 0 <= i < d.files@.len() ==> plain_name(#[trigger] d.files@[i].name@)
    &&& forall|i: int| 0 <= i < d.children@.len() ==> plain_name(#[trigger] d.children@[i].name@)
    &&& forall|i: int| 0 <= i < d.children@.len() ==> plain_names(#[trigger] d.children@[i].dir)
}

/// Whether `q` begins with `pre`.
pub open spec fn starts_with(q: Seq<char>, pre: Seq<char>) -> bool {
    pre.len() <= q.len() && q.subrange(0, pre.len() as int) == pre
}

/// No two entries of `s` share a path.
pub open spec fn walk_paths_unique(s: Seq<(Seq<char>, FileEntry)>) -> bool {
    forall|a: int, b: int| 0 <= a < s.len() && 0 <= b < s.len() && a != b ==> s[a].0 != s[b].0
}

proof fn lemma_starts_with_shorter(q: Seq<char>, pre: Seq<char>, shorter: Seq<char>)
    requires
        starts_with(q, pre + shorter),
    ensures
        starts_with(q, pre),
{
    assert(q.subrange(0, pre.len() as int) =~= (pre + shorter).subrange(0, pre.len() as int));
    assert((pre + shorter).subrange(0, pre.len() as int) =~= pre);
}

proof fn lemma_walk_prefix(d: Directory, p: Seq<char>)
    ensures
        forall|k: int| 0 <= k < walk_dir(d, p).len() ==> starts_with(#[trigger] walk_dir(d, p)[k].0, p),
    decreases d, 1nat, 0nat,
{
    let fp = d.files@.map_values(|f: NamedFile| (p + f.name@, f.file));
    lemma_children_prefix(d, p, 0);
    assert forall|k: int| 0 <= k < walk_dir(d, p).len() implies starts_with(#[trigger] walk_dir(d, p)[k].0, p) by {
        if k < fp.len() {
            assert(walk_dir(d, p)[k] == fp[k]);
            assert((p + d.files@[k].name@).subrange(0, p.len() as int) =~= p);
        } else {
            let w = walk_children(d, p, 0);
            assert(walk_dir(d, p)[k] == w[k - fp.len()]);
            let j = choose|j: int| 0 <= j < d.children@.len()
                && starts_with(w[k - fp.len()].0, p + d.children@[j].name@ + seq!['/']);
            assert(p + d.children@[j].name@ + seq!['/'] =~= p + (d.children@[j].name@ + seq!['/']));
            lemma_starts_with_shorter(w[k - fp.len()].0, p, d.children@[j].name@ + seq!['/']);
        }
    }
}

proof fn lemma_children_prefix(d: Directory, p: Seq<char>, i: nat)
    ensures
        forall|k: int| 0 <= k < walk_children(d, p, i).len() ==> exists|j: int| i <= j < d.children@.len()
            && starts_with(#[trigger] walk_children(d, p, i)[k].0, p + d.children@[j].name@ + seq!['/']),
    decreases d, 0nat, d.children@.len() - i,
{
    if i < d.children@.len() {
        let c = d.children@[i as int];
        let pc = p + c.name@ + seq!['/'];
        lemma_walk_prefix(c.dir, pc);
        lemma_children_prefix(d, p, i + 1);
        let first = walk_dir(c.dir, pc);
        let rest = walk_children(d, p, i + 1);
        assert forall|k: int| 0 <= k < walk_children(d, p, i).len() implies exists|j: int| i <= j < d.children@.len()
            && starts_with(#[trigger] walk_children(d, p, i)[k].0, p + d.children@[j].name@ + seq!['/']) by {
            if k < first.len() {
                assert(walk_children(d, p, i)[k] == first[k]);
                assert(starts_with(first[k].0, pc));
            } else {
                assert(walk_children(d, p, i)[k] == rest[k - first.len()]);
            }
        }
    }
}

proof fn lemma_distinct_dirs(q: Seq<char>, p: Seq<char>, a: Seq<char>, b: Seq<char>)
    requires
        plain_name(a),
        plain_name(b),
        a != b,
        starts_with(q, p + a + seq!['/']),
    ensures
        !starts_with(q, p + b + seq!['/']),
{
    if starts_with(q, p + b + seq!['/']) {
        let pa = p + a + seq!['/'];
        let pb = p + b + seq!['/'];
        assert forall|k: int| 0 <= k < pa.len() implies q[k] == pa[k] by {
            assert(q.subrange(0, pa.len() as int)[k] == q[k]);
        }
        assert forall|k: int| 0 <= k < pb.len() implies q[k] == pb[k] by {
            assert(q.subrange(0, pb.len() as int)[k] == q[k]);
        }
        if a.len() < b.len() {
            assert(pa[(p.len() + a.len()) as int] == '/');
            assert(pb[(p.len() + a.len()) as int] == b[a.len() as int]);
        } else if b.len() < a.len() {
            assert(pb[(p.len() + b.len()) as int] == '/');
            assert(pa[(p.len() + b.len()) as int] == a[b.len() as int]);
        } else {
            assert forall|k: int| 0 <= k < a.len() implies a[k] == b[k] by {
                assert(pa[p.len() + k] == a[k]);
                assert(pb[p.len() + k] == b[k]);
            }
            assert(a =~= b);
        }
    }
}

proof fn lemma_file_not_under_dir(p: Seq<char>, n: Seq<char>, c: Seq<char>)
    requires
        plain_name(n),
    ensures
        !starts_with(p + n, p + c + seq!['/']),
{
    let q = p + n;
    let pc = p + c + seq!['/'];
    if starts_with(q, pc) {
        assert(q.subrange(0, pc.len() as int)[(p.len() + c.len()) as int] == q[(p.len() + c.len()) as int]);
        assert(pc[(p.len() + c.len()) as int] == '/');
        assert(q[(p.len() + c.len()) as int] == n[c.len() as int]);
    }
}

proof fn lemma_walk_unique(d: Directory, p: Seq<char>)
    requires
        d.wf(),
        plain_names(d),
    ensures
        walk_paths_unique(walk_dir(d, p)),
    decreases d, 1nat, 0nat,
{
    let fp = d.files@.map_values(|f: NamedFile| (p + f.name@, f.file));
    let w = walk_children(d, p, 0);
    let s = walk_dir(d, p);
    lemma_children_unique(d, p, 0);
    lemma_children_prefix(d, p, 0);
    assert forall|a: int, b: int| 0 <= a < s.len() && 0 <= b < s.len() && a != b implies s[a].0 != s[b].0 by {
        if a < fp.len() && b < fp.len() {
            assert(s[a] == fp[a] && s[b] == fp[b]);
            if s[a].0 == s[b].0 {
                assert(fp[a].0.subrange(p.len() as int, fp[a].0.len() as int) =~= d.files@[a].name@);
                assert(fp[b].0.subrange(p.len() as int, fp[b].0.len() as int) =~= d.files@[b].name@);
                if a < b {
                    assert(d.files@[a].name@ != d.files@[b].name@);
                } else {
                    assert(d.files@[b].name@ != d.files@[a].name@);
                }
            }
        } else if a >= fp.len() && b >= fp.len() {
            assert(s[a] == w[a - fp.len()] && s[b] == w[b - fp.len()]);
        } else {
            let (x, y) = if a < fp.len() { (a, b) } else { (b, a) };
            assert(s[x] == fp[x] && s[y] == w[y - fp.len()]);
            let j = choose|j: int| 0 <= j < d.children@.len()
                && starts_with(w[y - fp.len()].0, p + d.children@[j].name@ + seq!['/']);
            assert(plain_name(d.files@[x].name@));
            lemma_file_not_under_dir(p, d.files@[x].name@, d.children@[j].name@);
        }
    }
}

proof fn lemma_children_unique(d: Directory, p: Seq<char>, i: nat)
    requires
        d.wf(),
        plain_names(d),
    ensures
        walk_paths_unique(walk_children(d, p, i)),
    decreases d, 0nat, d.children@.len() - i,
{
    if i < d.children@.len() {
        let c = d.children@[i as int];
        let pc = p + c.name@ + seq!['/'];
        assert(c.dir.wf());
        assert(plain_names(c.dir));
        lemma_walk_unique(c.dir, pc);
        lemma_walk_prefix(c.dir, pc);
        lemma_children_unique(d, p, i + 1);
        lemma_children_prefix(d, p, i + 1);
        let first = walk_dir(c.dir, pc);
        let rest = walk_children(d, p, i + 1);
        let s = walk_children(d, p, i);
        assert(s == first + rest);
        assert forall|a: int, b: int| 0 <= a < s.len() && 0 <= b < s.len() && a != b implies s[a].0 != s[b].0 by {
            if a < first.len() && b < first.len() {
                assert(s[a] == first[a] && s[b] == first[b]);
            } else if a >= first.len() && b >= first.len() {
                assert(s[a] == rest[a - first.len()] && s[b] == rest[b - first.len()]);
            } else {
                let (x, y) = if a < first.len() { (a, b) } else { (b, a) };
                assert(s[x] == first[x] && s[y] == rest[y - first.len()]);
                assert(starts_with(first[x].0, pc));
                let j = choose|j: int| i + 1 <= j < d.children@.len()
                    && starts_with(rest[y - first.len()].0, p + d.children@[j].name@ + seq!['/']);
                assert(d.children@[i as int].name@ != d.children@[j].name@);
                assert(plain_name(c.name@));
                assert(plain_name(d.children@[j].name@));
                lemma_distinct_dirs(first[x].0, p, c.name@, d.children@[j].name@);
            }
        }
    }
}

/// The walk of a well-formed tree whose names hold no `/` lists every path
/// once.
pub proof fn lemma_walk_paths_distinct(d: Directory, entries: Seq<WalkEntry>)
    requires
        d.wf(),
        plain_names(d),
        walk_view(entries) == walk_dir(d, Seq::empty()),
    ensures
        forall|a: int, b: int| 0 <= a < entries.len() && 0 <= b < entries.len() && a != b
            ==> entries[a].path@ != entries[b].path@,
{
    lemma_walk_unique(d, Seq::empty());
    assert forall|a: int, b: int| 0 <= a < entries.len() && 0 <= b < entries.len() && a != b
        implies entries[a].path@ != entries[b].path@ by {
        assert(walk_view(entries)[a].0 == entries[a].path@);
        assert(walk_view(entries)[b].0 == entries[b].path@);
    }
}

}
