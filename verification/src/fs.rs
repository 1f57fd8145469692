//! Directory trees of dumps: how many files a tree holds, the JSON dumps in
//! it, and its division into batches of bounded size.
use vstd::prelude::*;
use crate::text::{ends_with_seq, ends_with_str, starts_with_seq};

verus! {

/// An entry of a directory, as listed when it was read.
pub enum FsEntry {
    /// A file, with its path and its name.
    File { path: String, name: String },
    /// A directory, with its path and its own entries in listing order.
    Directory { path: String, entries: Vec<FsEntry> },
    /// Anything that is neither a file nor a directory.
    Other { path: String },
}

/// What a tree holds: how many files in all, and whether its top level holds
/// a directory and a file.
pub struct TreeInfo {
    /// The number of files in the tree, at any depth.
    pub size: u64,
    /// The top level holds a directory.
    pub hasDirs: bool,
    /// The top level holds a file.
    pub hasFiles: bool,
}

/// A directory chosen as a batch.
pub struct DirInfo {
    /// The directory.
    pub path: String,
    /// Only the directory's own files belong to the batch, not those of its
    /// subdirectories.
    pub shallow: bool,
    /// The number of files in the directory's tree.
    pub size: u64,
}

/// The number of files in the entries' trees.
pub open spec fn files_in(s: Seq<FsEntry>) -> nat
    decreases s,
{
    if s.len() == 0 {
        0
    } else {
        let rest = files_in(s.subrange(1, s.len() as int));
        match s[0] {
            FsEntry::File { .. } => 1 + rest,
            FsEntry::Directory { entries, .. } => files_in(entries@) + rest,
            FsEntry::Other { .. } => rest,
        }
    }
}

/// One of the entries is a directory.
pub open spec fn has_directory(s: Seq<FsEntry>) -> bool {
    exists|i: int| 0 <= i < s.len() && #[trigger] s[i] is Directory
}

/// One of the entries is a file.
pub open spec fn has_file(s: Seq<FsEntry>) -> bool {
    exists|i: int| 0 <= i < s.len() && #[trigger] s[i] is File
}

/// What a tree with these entries holds.
pub fn tree_info(entries: &Vec<FsEntry>) -> (info: TreeInfo)
    requires
        files_in(entries@) <= u64::MAX,
    ensures
        info.size == files_in(entries@),
        info.hasDirs == has_directory(entries@),
        info.hasFiles == has_file(entries@),
    decreases entries@,
{
    let mut size: u64 = 0;
    let mut has_dirs = false;
    let mut has_files = false;
    let mut i: usize = 0;
    assert(entries@.subrange(0, entries@.len() as int) == entries@);
    while i < entries.len()
        invariant
            i <= entries.len(),
            files_in(entries@) <= u64::MAX,
            size + files_in(entries@.subrange(i as int, entries@.len() as int)) == files_in(entries@),
            has_dirs == exists|j: int| 0 <= j < i && #[trigger] entries@[j] is Directory,
            has_files == exists|j: int| 0 <= j < i && #[trigger] entries@[j] is File,
        decreases entries.len() - i,
    {
        let ghost rest = entries@.subrange(i as int, entries@.len() as int);
        assert(rest[0] == entries@[i as int]);
        assert(rest.subrange(1, rest.len() as int) == entries@.subrange(i + 1, entries@.len() as int));
        match &entries[i] {
            FsEntry::File { .. } => {
                has_files = true;
                size = size + 1;
            },
            FsEntry::Directory { entries: sub, .. } => {
                has_dirs = true;
                assert(decreases_to!(entries@ => entries@[i as int]));
                let sub_info = tree_info(sub);
                size = size + sub_info.size;
            },
            FsEntry::Other { .. } => {},
        }
        i = i + 1;
    }
    TreeInfo { size, hasDirs: has_dirs, hasFiles: has_files }
}

/// A file name whose extension is `json`: it ends in `.json` and something
/// comes before that dot (`Path::extension` gives none for `.json` itself).
pub open spec fn has_json_extension(name: Seq<char>) -> bool {
    ends_with_seq(name, ".json"@) && name.len() > 5
}

/// The paths of the JSON files in the entries' trees, in listing order, the
/// files of a directory where the directory is listed.
pub open spec fn json_files_in(s: Seq<FsEntry>) -> Seq<Seq<char>>
    decreases s,
{
    if s.len() == 0 {
        Seq::empty()
    } else {
        let rest = json_files_in(s.subrange(1, s.len() as int));
        match s[0] {
            FsEntry::File { path, name } => if has_json_extension(name@) {
                seq![path@] + rest
            } else {
                rest
            },
            FsEntry::Directory { entries, .. } => json_files_in(entries@) + rest,
            FsEntry::Other { .. } => rest,
        }
    }
}

/// Appends the strings of `src` to `dst`.
fn append_strings(dst: &mut Vec<String>, src: Vec<String>)
    ensures
        final(dst).deep_view() == old(dst).deep_view() + src.deep_view(),
{
    let mut i: usize = 0;
    while i < src.len()
        invariant
            i <= src.len(),
            dst.deep_view() == old(dst).deep_view() + src.deep_view().take(i as int),
        decreases src.len() - i,
    {
        let ghost before = dst.deep_view();
        dst.push(src[i].clone());
        assert(dst.deep_view() == before.push(src[i as int]@));
        assert(src.deep_view().take(i + 1) == src.deep_view().take(i as int).push(src[i as int]@));
        i = i + 1;
    }
    assert(src.deep_view().take(src.len() as int) == src.deep_view());
}

/// The JSON files in a tree with these entries, at any depth, in listing
/// order.
pub fn getRecursiveJsonFilesFromDir(entries: &Vec<FsEntry>) -> (files: Vec<String>)
    ensures
        files.deep_view() == json_files_in(entries@),
    decreases entries@,
{
    let mut files: Vec<String> = Vec::new();
    let mut i: usize = 0;
    assert(entries@.subrange(0, entries@.len() as int) == entries@);
    assert(files.deep_view() == Seq::<Seq<char>>::empty());
    while i < entries.len()
        invariant
            i <= entries.len(),
            files.deep_view() + json_files_in(entries@.subrange(i as int, entries@.len() as int))
                == json_files_in(entries@),
        decreases entries.len() - i,
    {
        let ghost rest = entries@.subrange(i as int, entries@.len() as int);
        let ghost before = files.deep_view();
        assert(rest[0] == entries@[i as int]);
        assert(rest.subrange(1, rest.len() as int) == entries@.subrange(i + 1, entries@.len() as int));
        match &entries[i] {
            FsEntry::File { path, name } => {
                if ends_with_str(name.as_str(), ".json") && name.as_str().unicode_len() > 5 {
                    files.push(path.clone());
                    assert(files.deep_view() == before.push(path@));
                }
            },
            FsEntry::Directory { entries: sub, .. } => {
                assert(decreases_to!(entries@ => entries@[i as int]));
                let inner = getRecursiveJsonFilesFromDir(sub);
                append_strings(&mut files, inner);
            },
            FsEntry::Other { .. } => {},
        }
        i = i + 1;
    }
    assert(entries@.subrange(i as int, entries@.len() as int).len() == 0);
    assert(files.deep_view() + Seq::<Seq<char>>::empty() == files.deep_view());
    files
}

/// The path of an entry.
pub open spec fn entry_path(e: FsEntry) -> Seq<char> {
    match e {
        FsEntry::File { path, .. } => path@,
        FsEntry::Directory { path, .. } => path@,
        FsEntry::Other { path } => path@,
    }
}

/// `p` names something directly inside the directory `dir`: the directory's
/// path, the separator `sep`, then a name that is not empty and holds no
/// separator.
pub open spec fn child_of(p: Seq<char>, dir: Seq<char>, sep: char) -> bool {
    &&& p.len() > dir.len() + 1
    &&& p.take(dir.len() + 1int) == dir.push(sep)
    &&& forall|i: int| dir.len() + 1 <= i < p.len() ==> p[i] != sep
}

/// `p` is `dir` itself or lies below it.
pub open spec fn at_or_below(p: Seq<char>, dir: Seq<char>, sep: char) -> bool {
    p == dir || starts_with_seq(p, dir.push(sep))
}

/// The entries are those of the directory at `dir`, with `sep` between the
/// parts of a path: each entry's path names something directly inside `dir`,
/// no two entries share a path, a file's path is the directory's path, the
/// separator and the file's name, and a directory's own entries are those
/// of the directory at its path.
pub open spec fn listed_in(s: Seq<FsEntry>, dir: Seq<char>, sep: char) -> bool
    decreases s,
{
    if s.len() == 0 {
        true
    } else {
        let rest = s.subrange(1, s.len() as int);
        &&& child_of(entry_path(s[0]), dir, sep)
        &&& forall|j: int| 0 <= j < rest.len() ==> entry_path(#[trigger] rest[j]) != entry_path(s[0])
        &&& match s[0] {
            FsEntry::File { path, name } => path@ == dir.push(sep) + name@,
            FsEntry::Directory { path, entries } => listed_in(entries@, path@, sep),
            FsEntry::Other { .. } => true,
        }
        &&& listed_in(rest, dir, sep)
    }
}

/// `x` lies at or below one of the entries.
pub open spec fn below_an_entry(x: Seq<char>, s: Seq<FsEntry>, sep: char) -> bool {
    exists|i: int| 0 <= i < s.len() && at_or_below(x, entry_path(#[trigger] s[i]), sep)
}

proof fn lemma_below_child(x: Seq<char>, e: Seq<char>, dir: Seq<char>, sep: char)
    requires
        child_of(e, dir, sep),
        at_or_below(x, e, sep),
    ensures
        starts_with_seq(x, dir.push(sep)),
{
    let m: int = dir.len() + 1int;
    if x != e {
        assert(x.take(e.len() + 1int) == e.push(sep));
        assert(x.take(m) =~= e.take(m)) by {
            assert forall|i: int| 0 <= i < m implies x.take(m)[i] == e.take(m)[i] by {
                assert(x.take(e.len() + 1int)[i] == e.push(sep)[i]);
            }
        }
    }
}

proof fn lemma_one_child_above(x: Seq<char>, a: Seq<char>, b: Seq<char>, dir: Seq<char>, sep: char)
    requires
        child_of(a, dir, sep),
        child_of(b, dir, sep),
        at_or_below(x, a, sep),
        at_or_below(x, b, sep),
    ensures
        a == b,
{
    assert(x.len() >= a.len() && x.take(a.len() as int) =~= a) by {
        if x != a {
            assert forall|i: int| 0 <= i < a.len() implies x.take(a.len() as int)[i] == a[i] by {
                assert(x.take(a.len() + 1int)[i] == a.push(sep)[i]);
            }
        }
    }
    assert(x.len() >= b.len() && x.take(b.len() as int) =~= b) by {
        if x != b {
            assert forall|i: int| 0 <= i < b.len() implies x.take(b.len() as int)[i] == b[i] by {
                assert(x.take(b.len() + 1int)[i] == b.push(sep)[i]);
            }
        }
    }
    if a.len() < b.len() {
        assert(x[a.len() as int] == b[a.len() as int]);
        assert(x != a);
        assert(x.take(a.len() + 1int)[a.len() as int] == a.push(sep)[a.len() as int]);
    } else if b.len() < a.len() {
        assert(x[b.len() as int] == a[b.len() as int]);
        assert(x != b);
        assert(x.take(b.len() + 1int)[b.len() as int] == b.push(sep)[b.len() as int]);
    }
}

proof fn lemma_json_files_below(s: Seq<FsEntry>, dir: Seq<char>, sep: char)
    requires
        listed_in(s, dir, sep),
    ensures
        forall|k: int| 0 <= k < json_files_in(s).len() ==> below_an_entry(#[trigger] json_files_in(s)[k], s, sep),
        forall|k: int|
            0 <= k < json_files_in(s).len() ==> starts_with_seq(#[trigger] json_files_in(s)[k], dir.push(sep)),
    decreases s,
{
    if s.len() > 0 {
        let rest = s.subrange(1, s.len() as int);
        lemma_json_files_below(rest, dir, sep);
        let all = json_files_in(s);
        let tail = json_files_in(rest);
        assert forall|k: int| 0 <= k < tail.len() implies below_an_entry(#[trigger] tail[k], s, sep) by {
            let i = choose|i: int| 0 <= i < rest.len() && at_or_below(tail[k], entry_path(#[trigger] rest[i]), sep);
            assert(s[i + 1] == rest[i]);
        }
        match s[0] {
            FsEntry::File { path, name } => {
                if has_json_extension(name@) {
                    assert(all == seq![path@] + tail);
                    assert(at_or_below(path@, entry_path(s[0]), sep));
                    assert forall|k: int| 0 <= k < all.len() implies below_an_entry(#[trigger] all[k], s, sep)
                        && starts_with_seq(all[k], dir.push(sep)) by {
                        if k > 0 {
                            assert(all[k] == tail[k - 1]);
                        } else {
                            lemma_below_child(all[0], entry_path(s[0]), dir, sep);
                        }
                    }
                } else {
                    assert(all == tail);
                }
            },
            FsEntry::Directory { path, entries } => {
                assert(decreases_to!(s => s[0]));
                lemma_json_files_below(entries@, path@, sep);
                let inner = json_files_in(entries@);
                assert(all == inner + tail);
                assert forall|k: int| 0 <= k < all.len() implies below_an_entry(#[trigger] all[k], s, sep)
                    && starts_with_seq(all[k], dir.push(sep)) by {
                    if k >= inner.len() {
                        assert(all[k] == tail[k - inner.len()]);
                    } else {
                        assert(all[k] == inner[k]);
                        assert(at_or_below(all[k], entry_path(s[0]), sep));
                        lemma_below_child(all[k], entry_path(s[0]), dir, sep);
                    }
                }
            },
            FsEntry::Other { .. } => {
                assert(all == tail);
            },
        }
    }
}

/// In a tree listed as its directory lists it, the JSON files found all lie
/// below the directory and none is found twice.
pub proof fn law_json_files_listed_once(s: Seq<FsEntry>, dir: Seq<char>, sep: char)
    requires
        listed_in(s, dir, sep),
    ensures
        forall|k: int|
            0 <= k < json_files_in(s).len() ==> starts_with_seq(#[trigger] json_files_in(s)[k], dir.push(sep)),
        json_files_in(s).no_duplicates(),
    decreases s,
{
    lemma_json_files_below(s, dir, sep);
    if s.len() > 0 {
        let rest = s.subrange(1, s.len() as int);
        law_json_files_listed_once(rest, dir, sep);
        lemma_json_files_below(rest, dir, sep);
        let all = json_files_in(s);
        let tail = json_files_in(rest);
        let head: Seq<Seq<char>> = match s[0] {
            FsEntry::File { path, name } => if has_json_extension(name@) {
                seq![path@]
            } else {
                Seq::empty()
            },
            FsEntry::Directory { entries, .. } => json_files_in(entries@),
            FsEntry::Other { .. } => Seq::empty(),
        };
        assert(all == head + tail);
        match s[0] {
            FsEntry::Directory { path, entries } => {
                assert(decreases_to!(s => s[0]));
                law_json_files_listed_once(entries@, path@, sep);
            },
            _ => {},
        }
        assert forall|k: int| 0 <= k < head.len() implies at_or_below(#[trigger] head[k], entry_path(s[0]), sep) by {
            match s[0] {
                FsEntry::Directory { path, entries } => {
                    assert(decreases_to!(s => s[0]));
                    lemma_json_files_below(entries@, path@, sep);
                },
                _ => {},
            }
        }
        assert forall|a: int, b: int| 0 <= a < head.len() && 0 <= b < tail.len() implies head[a] != tail[b] by {
            if head[a] == tail[b] {
                let x = tail[b];
                assert(below_an_entry(x, rest, sep));
                let j = choose|j: int| 0 <= j < rest.len() && at_or_below(x, entry_path(#[trigger] rest[j]), sep);
                assert(listed_in(rest, dir, sep));
                assert(child_of(entry_path(rest[j]), dir, sep)) by {
                    lemma_listed_child(rest, dir, sep, j);
                }
                assert(at_or_below(x, entry_path(s[0]), sep));
                lemma_one_child_above(x, entry_path(s[0]), entry_path(rest[j]), dir, sep);
            }
        }
        assert forall|a: int, b: int| 0 <= a < all.len() && 0 <= b < all.len() && a != b implies all[a] != all[b] by {
            if a < head.len() && b < head.len() {
                assert(all[a] == head[a] && all[b] == head[b]);
            } else if a >= head.len() && b >= head.len() {
                assert(all[a] == tail[a - head.len()] && all[b] == tail[b - head.len()]);
            } else if a < head.len() {
                assert(all[a] == head[a] && all[b] == tail[b - head.len()]);
            } else {
                assert(all[b] == head[b] && all[a] == tail[a - head.len()]);
            }
        }
    }
}

proof fn lemma_listed_child(s: Seq<FsEntry>, dir: Seq<char>, sep: char, j: int)
    requires
        listed_in(s, dir, sep),
        0 <= j < s.len(),
    ensures
        child_of(entry_path(s[j]), dir, sep),
    decreases s.len(),
{
    if j > 0 {
        let rest = s.subrange(1, s.len() as int);
        lemma_listed_child(rest, dir, sep, j - 1);
        assert(rest[j - 1] == s[j]);
    }
}

/// A batch as a path, whether it is shallow, and its size.
pub open spec fn batch(path: Seq<char>, shallow: bool, size: nat) -> (Seq<char>, bool, nat) {
    (path, shallow, size)
}

/// The batches the entries give for at most `max` files: each directory in
/// listing order whose tree holds fewer than `max` files or no directory at
/// its top level is one batch; any other becomes a shallow batch (where its
/// top level holds a file) followed by the batches of its entries. The
/// listing stops at the first entry that is not a directory.
pub open spec fn batches_in(s: Seq<FsEntry>, max: u64) -> Seq<(Seq<char>, bool, nat)>
    decreases s,
{
    if s.len() == 0 {
        Seq::empty()
    } else {
        match s[0] {
            FsEntry::Directory { path, entries } => {
                let size = files_in(entries@);
                let here = if size < max || !has_directory(entries@) {
                    seq![batch(path@, false, size)]
                } else {
                    (if has_file(entries@) {
                        seq![batch(path@, true, size)]
                    } else {
                        Seq::empty()
                    }) + batches_in(entries@, max)
                };
                here + batches_in(s.subrange(1, s.len() as int), max)
            },
            _ => Seq::empty(),
        }
    }
}

/// The batches as paths, shallow flags and sizes.
pub open spec fn batches_view(dirs: Seq<DirInfo>) -> Seq<(Seq<char>, bool, nat)> {
    dirs.map_values(|d: DirInfo| batch(d.path@, d.shallow, d.size as nat))
}

proof fn lemma_batches_push(dirs: Seq<DirInfo>, d: DirInfo)
    ensures
        batches_view(dirs.push(d)) == batches_view(dirs).push(batch(d.path@, d.shallow, d.size as nat)),
{
    assert(batches_view(dirs.push(d)) =~= batches_view(dirs).push(batch(d.path@, d.shallow, d.size as nat)));
}

proof fn lemma_batches_add(a: Seq<DirInfo>, b: Seq<DirInfo>)
    ensures
        batches_view(a + b) == batches_view(a) + batches_view(b),
{
    assert(batches_view(a + b) =~= batches_view(a) + batches_view(b));
}

proof fn lemma_files_in_bound(s: Seq<FsEntry>, i: int)
    requires
        0 <= i < s.len(),
        s[i] is Directory,
    ensures
        files_in(s[i]->entries@) <= files_in(s),
    decreases s.len(),
{
    if i > 0 {
        lemma_files_in_bound(s.subrange(1, s.len() as int), i - 1);
        assert(s.subrange(1, s.len() as int)[i - 1] == s[i]);
    }
}

/// Divides a tree with these entries into batches of at most `maxBatchSize`
/// files, as `batches_in` says.
pub fn getDirsWithMaxSize(entries: &Vec<FsEntry>, maxBatchSize: u64) -> (dirs: Vec<DirInfo>)
    requires
        files_in(entries@) <= u64::MAX,
    ensures
        batches_view(dirs@) == batches_in(entries@, maxBatchSize),
    decreases entries@,
{
    let mut dirs: Vec<DirInfo> = Vec::new();
    let mut i: usize = 0;
    assert(entries@.subrange(0, entries@.len() as int) == entries@);
    assert(batches_view(dirs@) =~= Seq::empty());
    while i < entries.len()
        invariant
            i <= entries.len(),
            files_in(entries@) <= u64::MAX,
            batches_view(dirs@) + batches_in(entries@.subrange(i as int, entries@.len() as int), maxBatchSize)
                == batches_in(entries@, maxBatchSize),
        decreases entries.len() - i,
    {
        let ghost rest = entries@.subrange(i as int, entries@.len() as int);
        let ghost before = dirs@;
        assert(rest[0] == entries@[i as int]);
        assert(rest.subrange(1, rest.len() as int) == entries@.subrange(i + 1, entries@.len() as int));
        match &entries[i] {
            FsEntry::Directory { path, entries: sub } => {
                proof {
                    lemma_files_in_bound(entries@, i as int);
                }
                let info = tree_info(sub);
                if info.size < maxBatchSize || !info.hasDirs {
                    let d = DirInfo { path: path.clone(), shallow: false, size: info.size };
                    dirs.push(d);
                    proof {
                        lemma_batches_push(before, d);
                    }
                } else {
                    if info.hasFiles {
                        let d = DirInfo { path: path.clone(), shallow: true, size: info.size };
                        dirs.push(d);
                        proof {
                            lemma_batches_push(before, d);
                        }
                    }
                    let ghost mid = dirs@;
                    assert(decreases_to!(entries@ => entries@[i as int]));
                    let inner = getDirsWithMaxSize(sub, maxBatchSize);
                    let ghost inner_view = inner@;
                    let mut inner = inner;
                    dirs.append(&mut inner);
                    proof {
                        lemma_batches_add(mid, inner_view);
                    }
                }
            },
            _ => {
                assert(batches_in(rest, maxBatchSize) == Seq::<(Seq<char>, bool, nat)>::empty());
                assert(batches_view(dirs@) + Seq::<(Seq<char>, bool, nat)>::empty() == batches_view(dirs@));
                return dirs;
            },
        }
        i = i + 1;
    }
    assert(entries@.subrange(i as int, entries@.len() as int).len() == 0);
    assert(batches_view(dirs@) + Seq::<(Seq<char>, bool, nat)>::empty() == batches_view(dirs@));
    dirs
}

/// A directory is split (taken as a shallow batch, its subdirectories
/// batched apart) only when its tree holds at least the most a batch may
/// hold; and no batch holds more files than the whole tree.
pub proof fn law_split_batches_are_full(s: Seq<FsEntry>, max: u64)
    ensures
        forall|k: int|
            0 <= k < batches_in(s, max).len() ==> (#[trigger] batches_in(s, max)[k]).1
                ==> batches_in(s, max)[k].2 >= max,
        forall|k: int|
            0 <= k < batches_in(s, max).len() ==> (#[trigger] batches_in(s, max)[k]).2 <= files_in(s),
    decreases s,
{
    if s.len() > 0 {
        let rest = s.subrange(1, s.len() as int);
        law_split_batches_are_full(rest, max);
        match s[0] {
            FsEntry::Directory { path, entries } => {
                assert(decreases_to!(s => s[0]));
                law_split_batches_are_full(entries@, max);
                let size = files_in(entries@);
                let all = batches_in(s, max);
                let inner = batches_in(entries@, max);
                let tail = batches_in(rest, max);
                assert(files_in(s) == size + files_in(rest));
                if size < max || !has_directory(entries@) {
                    let here = seq![batch(path@, false, size)];
                    assert(all == here + tail);
                    assert forall|k: int| 0 <= k < all.len() implies ((#[trigger] all[k]).1 ==> all[k].2 >= max)
                        && all[k].2 <= files_in(s) by {
                        if k >= 1 {
                            assert(all[k] == tail[k - 1]);
                        }
                    }
                } else {
                    let head: Seq<(Seq<char>, bool, nat)> = if has_file(entries@) {
                        seq![batch(path@, true, size)]
                    } else {
                        Seq::empty()
                    };
                    let here = head + inner;
                    assert(all == here + tail);
                    assert forall|k: int| 0 <= k < all.len() implies ((#[trigger] all[k]).1 ==> all[k].2 >= max)
                        && all[k].2 <= files_in(s) by {
                        if k < head.len() {
                            assert(all[k] == head[k]);
                        } else if k < here.len() {
                            assert(all[k] == inner[k - head.len()]);
                        } else {
                            assert(all[k] == tail[k - here.len()]);
                        }
                    }
                }
            },
            _ => {},
        }
    }
}

} // verus!
