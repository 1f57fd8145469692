//! The dependency walk: which dumps a dump depends on, and the depth-first
//! walk that reads targets and their dependencies, recording the depth each
//! dump is met at.
use vstd::prelude::*;
use crate::pattern::{regex_compiles, regex_group_one_captures, CompiledPattern};
use crate::text::{
    concat_str, contains_seq, contains_str, ends_with_seq, ends_with_str, replace_seq,
    replace_str, starts_with_seq,
};

verus! {

/// The expression whose first group is the asset class named in a dump.
pub open spec fn asset_class_pattern() -> Seq<char> {
    "AssetClass\".*?\"(.*?)\""@
}

/// The expression whose first group is a `/Game` path referenced by a dump.
pub open spec fn game_reference_pattern() -> Seq<char> {
    "(\\/Game.*?)[\"|\\.]"@
}

/// The text of each capture, where every capture has one.
pub open spec fn capture_texts(caps: Seq<Option<Seq<char>>>) -> Seq<Seq<char>> {
    caps.map_values(|c: Option<Seq<char>>| c->0)
}

/// Every capture has a text.
pub open spec fn all_captured(caps: Seq<Option<Seq<char>>>) -> bool {
    forall|i: int| 0 <= i < caps.len() ==> (#[trigger] caps[i]) is Some
}

/// The asset class a dump names: the text of the first capture, or the empty
/// text where there is none; `None` where the first capture has no text.
pub open spec fn asset_class_of(caps: Seq<Option<Seq<char>>>) -> Option<Seq<char>> {
    if caps.len() == 0 {
        Some(Seq::empty())
    } else {
        caps[0]
    }
}

/// The dump path that a referenced `/Game` path stands for.
pub open spec fn dump_path_of(reference: Seq<char>) -> Seq<char> {
    "nongenout"@ + reference
}

/// `path` with `.json` added unless it already ends so.
pub open spec fn with_json_extension(path: Seq<char>) -> Seq<char> {
    if ends_with_seq(path, ".json"@) {
        path
    } else {
        path + ".json"@
    }
}

/// `path` with every `\` turned into `/`.
pub open spec fn slashed(path: Seq<char>) -> Seq<char> {
    replace_seq(path, "\\"@, "/"@)
}

/// The dependencies the references `refs` give, for the dump at `own_path`
/// (already slashed), once the dump paths in `seen` were met: each dump path
/// counts once, one that the dump's own path contains is skipped, and each
/// ends in `.json`.
pub open spec fn dependencies_from(own_path: Seq<char>, refs: Seq<Seq<char>>, seen: Seq<Seq<char>>) -> Seq<Seq<char>>
    decreases refs.len(),
{
    if refs.len() == 0 {
        Seq::empty()
    } else {
        let p = dump_path_of(refs[0]);
        if seen.contains(p) {
            dependencies_from(own_path, refs.drop_first(), seen)
        } else if contains_seq(own_path, p) {
            dependencies_from(own_path, refs.drop_first(), seen.push(p))
        } else {
            seq![with_json_extension(p)] + dependencies_from(own_path, refs.drop_first(), seen.push(p))
        }
    }
}

/// The dependencies of the dump at `path` whose `/Game` references are `refs`.
pub open spec fn dependencies_of(path: Seq<char>, refs: Seq<Seq<char>>) -> Seq<Seq<char>> {
    dependencies_from(slashed(path), refs, Seq::empty())
}

/// Where a dump is kept while the assets of its depth are generated.
pub open spec fn parked_path(path: Seq<char>) -> Seq<char> {
    replace_seq(path, "nongenout/"@, "out/"@)
}

/// A dump met in the dependency walk, and the depth it was met at.
pub struct FileIterationInfo {
    /// Where the dump is.
    pub rootPath: String,
    /// Where the dump is kept while its depth is generated.
    pub modPath: String,
    /// How many dependency steps from a target the dump was met.
    pub iteration: u32,
    /// The asset class the dump names (empty where it names none).
    pub assetType: String,
}

impl FileIterationInfo {
    /// The record for the dump at `path`, met at depth `iteration`, of
    /// asset class `asset`.
    pub open spec fn describes(&self, path: Seq<char>, iteration: u32, asset: Seq<char>) -> bool {
        &&& self.rootPath@ == path
        &&& self.modPath@ == parked_path(path)
        &&& self.iteration == iteration
        &&& self.assetType@ == asset
    }
}

/// Why a dump could not be taken into the walk.
#[derive(Debug)]
pub enum WalkError {
    /// The regex crate refused one of the expressions that read a dump.
    PatternRefused,
    /// A match of an expression had no text for its group.
    MissingGroup,
    /// A dump lies deeper than a depth can count.
    TooDeep,
    /// No dump is waiting to be read.
    NothingPending,
}

/// The asset class a dump names, from the captures of the asset class
/// expression; `None` where the first capture has no text.
pub fn asset_class_from(captures: &Vec<Option<String>>) -> (res: Option<String>)
    ensures
        match res {
            Some(a) => asset_class_of(captures.deep_view()) == Some(a@),
            None => asset_class_of(captures.deep_view()) is None,
        },
{
    if captures.len() == 0 {
        return Some(String::new());
    }
    match &captures[0] {
        Some(a) => Some(a.clone()),
        None => None,
    }
}

/// The dependencies of the dump at `path`, from the captures of the `/Game`
/// reference expression; `None` where a capture has no text.
pub fn dependencies_from_captures(path: &str, captures: &Vec<Option<String>>) -> (res: Option<Vec<String>>)
    ensures
        res is Some <==> all_captured(captures.deep_view()),
        res matches Some(d) ==> d.deep_view() == dependencies_of(path@, capture_texts(captures.deep_view())),
{
    let own = replace_str(path, "\\", "/");
    let ghost caps = captures.deep_view();
    let mut seen: Vec<String> = Vec::new();
    let mut deps: Vec<String> = Vec::new();
    let mut i: usize = 0;
    assert(capture_texts(caps).skip(0) == capture_texts(caps));
    assert(deps.deep_view() == Seq::<Seq<char>>::empty());
    assert(seen.deep_view() == Seq::<Seq<char>>::empty());
    while i < captures.len()
        invariant
            i <= captures.len(),
            caps == captures.deep_view(),
            own@ == slashed(path@),
            all_captured(caps.take(i as int)),
            deps.deep_view() + dependencies_from(own@, capture_texts(caps).skip(i as int), seen.deep_view())
                == dependencies_of(path@, capture_texts(caps)),
        decreases captures.len() - i,
    {
        let reference = match &captures[i] {
            Some(r) => r,
            None => {
                assert(caps[i as int] is None);
                return None;
            },
        };
        let ghost refs = capture_texts(caps).skip(i as int);
        assert(refs[0] == reference@);
        assert(refs.drop_first() == capture_texts(caps).skip(i + 1));
        let p = concat_str("nongenout", reference.as_str());
        assert(p@ == dump_path_of(refs[0]));
        let ghost seen_before = seen.deep_view();
        let already = contains_string(&seen, &p);
        if !already {
            seen.push(p.clone());
            assert(seen.deep_view() == seen_before.push(p@));
            if !contains_str(own.as_str(), p.as_str()) {
                let dep = if ends_with_str(p.as_str(), ".json") {
                    p
                } else {
                    concat_str(p.as_str(), ".json")
                };
                let ghost deps_before = deps.deep_view();
                deps.push(dep);
                assert(deps.deep_view() == deps_before.push(with_json_extension(p@)));
                assert(deps.deep_view() + dependencies_from(own@, refs.drop_first(), seen.deep_view())
                    == deps_before + dependencies_from(own@, refs, seen_before));
            }
        }
        assert(all_captured(caps.take(i + 1))) by {
            assert forall|j: int| 0 <= j < i + 1 implies (#[trigger] caps.take(i + 1)[j]) is Some by {
                if j < i {
                    assert(caps.take(i + 1)[j] == caps.take(i as int)[j]);
                }
            }
        }
        i = i + 1;
    }
    assert(caps.take(captures.len() as int) == caps);
    Some(deps)
}

/// Whether `items` holds a string equal to `s`.
pub fn contains_string(items: &Vec<String>, s: &String) -> (b: bool)
    ensures
        b == items.deep_view().contains(s@),
{
    let mut i: usize = 0;
    while i < items.len()
        invariant
            i <= items.len(),
            forall|j: int| 0 <= j < i ==> items.deep_view()[j] != s@,
        decreases items.len() - i,
    {
        if items[i] == *s {
            assert(items.deep_view()[i as int] == s@);
            return true;
        }
        i = i + 1;
    }
    false
}

/// Dumps waiting to be read, each with the depth it was met at, in the order
/// a stack holds them: the last one is read next.
pub open spec fn stacked(paths: Seq<Seq<char>>, iteration: int) -> Seq<(Seq<char>, int)> {
    paths.reverse().map_values(|p: Seq<char>| (p, iteration))
}

proof fn lemma_map_push<A, B>(s: Seq<A>, x: A, f: spec_fn(A) -> B)
    ensures
        s.push(x).map_values(f) == s.map_values(f).push(f(x)),
{
    assert(s.push(x).map_values(f) =~= s.map_values(f).push(f(x)));
}

proof fn lemma_map_drop_last<A, B>(s: Seq<A>, f: spec_fn(A) -> B)
    requires
        s.len() > 0,
    ensures
        s.drop_last().map_values(f) == s.map_values(f).drop_last(),
{
    assert(s.drop_last().map_values(f) =~= s.map_values(f).drop_last());
}

/// The depth-first walk over dumps and their dependencies: which dump is
/// read next, the dumps read so far with their depths, and the greatest depth
/// read.
pub struct DependencyWalk {
    pending: Vec<(String, u32)>,
    files: Vec<FileIterationInfo>,
    highest: u32,
    found: Ghost<Seq<Seq<Seq<char>>>>,
    targets: Ghost<Seq<Seq<char>>>,
    start: Ghost<u32>,
}

/// The paths of the dumps read at depth `d`, in the order read.
pub open spec fn paths_at_depth(files: Seq<FileIterationInfo>, d: u32) -> Seq<Seq<char>>
    decreases files.len(),
{
    if files.len() == 0 {
        Seq::empty()
    } else {
        let rest = paths_at_depth(files.drop_last(), d);
        if files.last().iteration == d {
            rest.push(files.last().rootPath@)
        } else {
            rest
        }
    }
}

/// The dumps waiting at depth `d`, in the order they will be read.
pub open spec fn waiting_at_depth(pending: Seq<(Seq<char>, int)>, d: int) -> Seq<Seq<char>>
    decreases pending.len(),
{
    if pending.len() == 0 {
        Seq::empty()
    } else {
        let rest = waiting_at_depth(pending.drop_last(), d);
        if pending.last().1 == d {
            seq![pending.last().0] + rest
        } else {
            rest
        }
    }
}

proof fn lemma_waiting_stacked_targets(t: Seq<Seq<char>>, d: int)
    ensures
        waiting_at_depth(stacked(t, d), d) == t,
    decreases t.len(),
{
    if t.len() > 0 {
        lemma_waiting_stacked_targets(t.drop_first(), d);
        assert(stacked(t, d).drop_last() =~= stacked(t.drop_first(), d));
        assert(stacked(t, d).last() == (t[0], d));
        assert(seq![t[0]] + t.drop_first() =~= t);
    } else {
        assert(stacked(t, d) =~= Seq::<(Seq<char>, int)>::empty());
    }
}

proof fn lemma_waiting_ignores_deeper(a: Seq<(Seq<char>, int)>, b: Seq<(Seq<char>, int)>, d: int)
    requires
        forall|i: int| 0 <= i < b.len() ==> (#[trigger] b[i]).1 != d,
    ensures
        waiting_at_depth(a + b, d) == waiting_at_depth(a, d),
    decreases b.len(),
{
    if b.len() > 0 {
        lemma_waiting_ignores_deeper(a, b.drop_last(), d);
        assert((a + b).drop_last() =~= a + b.drop_last());
        assert((a + b).last() == b[b.len() - 1]);
    } else {
        assert(a + b =~= a);
    }
}

proof fn lemma_start_depth_step(
    old_files: Seq<FileIterationInfo>,
    old_view: Seq<(Seq<char>, int)>,
    entry: FileIterationInfo,
    deps: Seq<Seq<char>>,
    targets: Seq<Seq<char>>,
    d: u32,
)
    requires
        old_view.len() > 0,
        old_view.last() == (entry.rootPath@, entry.iteration as int),
        entry.iteration >= d,
        paths_at_depth(old_files, d) + waiting_at_depth(old_view, d as int) == targets,
    ensures
        paths_at_depth(old_files.push(entry), d) + waiting_at_depth(
            old_view.drop_last() + stacked(deps, entry.iteration + 1),
            d as int,
        ) == targets,
{
    let b = stacked(deps, entry.iteration + 1);
    assert forall|i: int| 0 <= i < b.len() implies (#[trigger] b[i]).1 != d by {
        assert(b[i] == (deps.reverse()[i], entry.iteration + 1));
    }
    lemma_waiting_ignores_deeper(old_view.drop_last(), b, d as int);
    assert(old_files.push(entry).drop_last() =~= old_files);
    let z = paths_at_depth(old_files, d);
    let w = waiting_at_depth(old_view.drop_last(), d as int);
    if entry.iteration == d {
        assert(z.push(entry.rootPath@) + w =~= z + (seq![entry.rootPath@] + w));
    }
}

/// The dependency `d` of the `k`-th dump read is taken care of: a later dump
/// read one level deeper is `d`, or `d` waits on the stack one level deeper.
pub open spec fn dependency_met(
    files: Seq<FileIterationInfo>,
    pending: Seq<(Seq<char>, int)>,
    k: int,
    d: Seq<char>,
) -> bool {
    ||| exists|m: int|
        k < m < files.len() && (#[trigger] files[m]).rootPath@ == d && files[m].iteration
            == files[k].iteration + 1
    ||| exists|j: int| 0 <= j < pending.len() && #[trigger] pending[j] == (d, files[k].iteration + 1)
}

impl DependencyWalk {
    /// The dumps waiting to be read; the last is read next.
    pub closed spec fn pending_view(&self) -> Seq<(Seq<char>, int)> {
        self.pending@.map_values(|p: (String, u32)| (p.0@, p.1 as int))
    }

    /// The dumps read so far, in the order they were read.
    pub closed spec fn files_view(&self) -> Seq<FileIterationInfo> {
        self.files@
    }

    /// The greatest depth of a dump read (zero before any).
    pub closed spec fn highest_view(&self) -> u32 {
        self.highest
    }

    /// The dependencies found in each dump read, in the order read.
    pub closed spec fn dependencies_view(&self) -> Seq<Seq<Seq<char>>> {
        self.found@
    }

    /// The targets the walk started from.
    pub closed spec fn targets_view(&self) -> Seq<Seq<char>> {
        self.targets@
    }

    /// The depth the targets were given.
    pub closed spec fn start_view(&self) -> u32 {
        self.start@
    }

    /// The walk's own invariant: waiting depths never fall towards the top of
    /// the stack and exceed the last depth read by at most one; nothing lies
    /// above the starting depth; the first dump read lies at the starting
    /// depth, each next one at most one deeper than the one before, and the
    /// depth kept is the greatest depth read; the dumps read at the starting
    /// depth and then those waiting there are the targets, in order.
    pub closed spec fn wf(&self) -> bool {
        &&& paths_at_depth(self.files@, self.start@) + waiting_at_depth(self.pending_view(), self.start@ as int)
            == self.targets@
        &&& forall|i: int| 0 <= i < self.pending.len() ==> self.pending@[i].1 >= self.start@
        &&& forall|k: int| 0 <= k < self.files.len() ==> #[trigger] self.files@[k].iteration >= self.start@
        &&& forall|i: int, j: int|
            0 <= i < j < self.pending.len() ==> self.pending@[i].1 <= self.pending@[j].1
        &&& self.files.len() > 0 ==> forall|i: int| 0 <= i < self.pending.len() ==> self.pending@[i].1 <= self.highest + 1
        &&& self.files.len() == 0 ==> self.highest == 0 && forall|i: int|
            0 <= i < self.pending.len() ==> self.pending@[i].1 == self.start@
        &&& self.files.len() > 0 ==> self.files@[0].iteration == self.start@
        &&& self.files.len() > 0 ==> forall|i: int|
            0 <= i < self.pending.len() ==> self.pending@[i].1 <= self.files@.last().iteration + 1
        &&& forall|k: int| 0 <= k < self.files.len() ==> #[trigger] self.files@[k].iteration <= self.highest
        &&& self.files.len() > 0 ==> exists|k: int|
            0 <= k < self.files.len() && #[trigger] self.files@[k].iteration == self.highest
        &&& forall|k: int|
            0 <= k < self.files.len() - 1 ==> #[trigger] self.files@[k + 1].iteration
                <= self.files@[k].iteration + 1
        &&& self.found@.len() == self.files.len()
        &&& forall|k: int, i: int|
            0 <= k < self.files.len() && 0 <= i < self.found@[k].len() ==> dependency_met(
                self.files@,
                self.pending_view(),
                k,
                #[trigger] self.found@[k][i],
            )
    }

    /// What recording one dump does: with nothing waiting it fails with
    /// `NothingPending`; where a capture lacks its text it fails with
    /// `MissingGroup`; where a dependency would lie deeper than a depth can
    /// count it fails with `TooDeep`; a failure changes nothing. Otherwise the
    /// dump on top of the stack is taken off and recorded with its depth, its
    /// asset class and its parked path, its depth becomes the one kept, and its
    /// dependencies go on the stack one level deeper, the first of them on top.
    pub open spec fn records(
        old: DependencyWalk,
        new: DependencyWalk,
        asset_caps: Seq<Option<Seq<char>>>,
        reference_caps: Seq<Option<Seq<char>>>,
        res: Result<(), WalkError>,
    ) -> bool {
        if old.pending_view().len() == 0 {
            res matches Err(WalkError::NothingPending) && new == old
        } else {
            let (path, it) = old.pending_view().last();
            let deps = dependencies_of(path, capture_texts(reference_caps));
            if asset_class_of(asset_caps) is None || !all_captured(reference_caps) {
                res matches Err(WalkError::MissingGroup) && new == old
            } else if it == u32::MAX && deps.len() > 0 {
                res matches Err(WalkError::TooDeep) && new == old
            } else {
                &&& res is Ok
                &&& new.files_view().len() == old.files_view().len() + 1
                &&& new.files_view().drop_last() == old.files_view()
                &&& new.files_view().last().describes(path, it as u32, asset_class_of(asset_caps)->0)
                &&& new.highest_view() == (if it > old.highest_view() { it as u32 } else { old.highest_view() })
                &&& new.pending_view() == old.pending_view().drop_last() + stacked(deps, it + 1)
                &&& new.dependencies_view() == old.dependencies_view().push(deps)
                &&& new.targets_view() == old.targets_view()
                &&& new.start_view() == old.start_view()
            }
        }
    }

    /// A walk from the given targets, the first of them read first, each at
    /// depth zero.
    pub fn new(targets: &Vec<String>) -> (walk: DependencyWalk)
        ensures
            walk.wf(),
            walk.pending_view() == stacked(targets.deep_view(), 0),
            walk.files_view().len() == 0,
            walk.highest_view() == 0,
            walk.dependencies_view().len() == 0,
            walk.targets_view() == targets.deep_view(),
            walk.start_view() == 0,
    {
        DependencyWalk::starting_at(targets, 0)
    }

    /// A walk from the given targets, the first of them read first, each at
    /// the given depth; the highest depth starts at zero.
    pub fn starting_at(targets: &Vec<String>, depth: u32) -> (walk: DependencyWalk)
        ensures
            walk.wf(),
            walk.pending_view() == stacked(targets.deep_view(), depth as int),
            walk.files_view().len() == 0,
            walk.highest_view() == 0,
            walk.dependencies_view().len() == 0,
            walk.targets_view() == targets.deep_view(),
            walk.start_view() == depth,
    {
        let mut pending: Vec<(String, u32)> = Vec::new();
        let mut k: usize = targets.len();
        while k > 0
            invariant
                k <= targets.len(),
                pending@.map_values(|p: (String, u32)| (p.0@, p.1 as int)) == stacked(
                    targets.deep_view().skip(k as int),
                    depth as int,
                ),
                forall|i: int| 0 <= i < pending.len() ==> pending@[i].1 == depth,
            decreases k,
        {
            k = k - 1;
            let ghost before = pending@;
            pending.push((targets[k].clone(), depth));
            proof {
                let t = targets.deep_view();
                assert(t.skip(k as int).reverse() =~= t.skip(k + 1).reverse().push(t[k as int]));
                assert(pending@ == before.push((targets[k as int], depth)));
                lemma_map_push(before, (targets[k as int], depth), |p: (String, u32)| (p.0@, p.1 as int));
                lemma_map_push(t.skip(k + 1).reverse(), t[k as int], |p: Seq<char>| (p, depth as int));
            }
        }
        assert(targets.deep_view().skip(0) == targets.deep_view());
        proof {
            lemma_waiting_stacked_targets(targets.deep_view(), depth as int);
            assert(paths_at_depth(Seq::<FileIterationInfo>::empty(), depth) + targets.deep_view()
                =~= targets.deep_view());
        }
        DependencyWalk {
            pending,
            files: Vec::new(),
            highest: 0,
            found: Ghost(Seq::empty()),
            targets: Ghost(targets.deep_view()),
            start: Ghost(depth),
        }
    }

    /// The dump to read next and its depth; `None` when the walk is over.
    pub fn next_target(&self) -> (res: Option<(String, u32)>)
        ensures
            match res {
                Some((p, it)) => self.pending_view().len() > 0 && self.pending_view().last() == (
                    p@,
                    it as int,
                ),
                None => self.pending_view().len() == 0,
            },
    {
        if self.pending.len() == 0 {
            None
        } else {
            let n: usize = self.pending.len();
            Some((self.pending[n - 1].0.clone(), self.pending[n - 1].1))
        }
    }

    /// The dumps read so far, in the order they were read.
    pub fn files(&self) -> (files: &Vec<FileIterationInfo>)
        ensures
            files@ == self.files_view(),
    {
        &self.files
    }

    /// The greatest depth of a dump read (zero before any).
    pub fn highest_iteration(&self) -> (h: u32)
        ensures
            h == self.highest_view(),
    {
        self.highest
    }

    /// The dumps read, in the order they were read, taken out of the walk.
    pub fn into_files(self) -> (files: Vec<FileIterationInfo>)
        ensures
            files@ == self.files_view(),
    {
        self.files
    }

    /// Records the dump on top of the stack from the captures of its text:
    /// those of the asset class expression and those of the `/Game` reference
    /// expression.
    pub fn record_visit(
        &mut self,
        asset_captures: &Vec<Option<String>>,
        reference_captures: &Vec<Option<String>>,
    ) -> (res: Result<(), WalkError>)
        requires
            old(self).wf(),
        ensures
            final(self).wf(),
            DependencyWalk::records(
                *old(self),
                *final(self),
                asset_captures.deep_view(),
                reference_captures.deep_view(),
                res,
            ),
    {
        let n: usize = self.pending.len();
        if n == 0 {
            return Err(WalkError::NothingPending);
        }
        let path = self.pending[n - 1].0.clone();
        let it: u32 = self.pending[n - 1].1;
        assert(self.pending_view().last() == (path@, it as int));
        let asset = match asset_class_from(asset_captures) {
            Some(a) => a,
            None => {
                return Err(WalkError::MissingGroup);
            },
        };
        let deps = match dependencies_from_captures(path.as_str(), reference_captures) {
            Some(d) => d,
            None => {
                return Err(WalkError::MissingGroup);
            },
        };
        if it == u32::MAX && deps.len() > 0 {
            return Err(WalkError::TooDeep);
        }
        let parked = replace_str(path.as_str(), "nongenout/", "out/");
        let entry = FileIterationInfo { rootPath: path, modPath: parked, iteration: it, assetType: asset };
        let ghost old_pending = self.pending@;
        let ghost old_files = self.files@;
        let ghost old_view = self.pending_view();
        let ghost old_found = self.found@;
        let ghost old_highest = self.highest;
        let ghost old_targets = self.targets@;
        let ghost start = self.start@;
        assert(paths_at_depth(old_files, start) + waiting_at_depth(old_view, start as int) == old_targets);
        self.pending.pop();
        self.files.push(entry);
        if it > self.highest {
            self.highest = it;
        }
        self.found = Ghost(old_found.push(deps.deep_view()));
        assert(self.pending@ == old_pending.drop_last());
        proof {
            lemma_map_drop_last(old_pending, |p: (String, u32)| (p.0@, p.1 as int));
            assert(stacked(deps.deep_view().skip(deps.len() as int), it + 1) =~= Seq::<(Seq<char>, int)>::empty());
        }
        assert(self.pending_view() == old_view.drop_last());
        let mut k: usize = deps.len();
        while k > 0
            invariant
                k <= deps.len(),
                deps.len() > 0 ==> it < u32::MAX,
                self.highest == (if it > old_highest { it } else { old_highest }),
                self.files@ == old_files.push(entry),
                self.found@ == old_found.push(deps.deep_view()),
                self.targets@ == old_targets,
                self.start@ == start,
                it >= start,
                paths_at_depth(old_files, start) + waiting_at_depth(old_view, start as int) == old_targets,
                old_pending.len() > 0,
                self.pending@.len() == old_pending.len() - 1 + (deps.len() - k),
                forall|i: int| 0 <= i < old_pending.len() - 1 ==> self.pending@[i] == old_pending[i],
                self.pending_view() == old_view.drop_last() + stacked(
                    deps.deep_view().skip(k as int),
                    it + 1,
                ),
                forall|i: int|
                    old_pending.len() - 1 <= i < self.pending.len() ==> self.pending@[i].1 == it
                        + 1,
            decreases k,
        {
            k = k - 1;
            let ghost before = self.pending@;
            let ghost before_view = self.pending_view();
            self.pending.push((deps[k].clone(), it + 1));
            proof {
                let t = deps.deep_view();
                assert(t.skip(k as int).reverse() =~= t.skip(k + 1).reverse().push(t[k as int]));
                assert(self.pending@ == before.push((deps[k as int], (it + 1) as u32)));
                lemma_map_push(before, (deps[k as int], (it + 1) as u32), |p: (String, u32)| (p.0@, p.1 as int));
                lemma_map_push(t.skip(k + 1).reverse(), t[k as int], |p: Seq<char>| (p, it + 1));
                assert(self.pending_view() == before_view.push((t[k as int], it + 1)));
            }
        }
        assert(deps.deep_view().skip(0) == deps.deep_view());
        proof {
            lemma_start_depth_step(old_files, old_view, entry, deps.deep_view(), self.targets@, start);
            assert forall|i: int| 0 <= i < self.pending.len() implies self.pending@[i].1 >= start by {
                if i < old_pending.len() - 1 {
                    assert(self.pending@[i] == old_pending[i]);
                }
            }
            assert forall|k: int| 0 <= k < self.files.len() implies #[trigger] self.files@[k].iteration >= start by {
                if k < old_files.len() {
                    assert(self.files@[k] == old_files[k]);
                }
            }
            if old_files.len() == 0 {
                assert(self.files@[0] == entry);
            }
            assert(self.files@.drop_last() == old_files);
            assert(self.files@.last() == entry);
            assert forall|i: int, j: int|
                0 <= i < j < self.pending.len() implies self.pending@[i].1 <= self.pending@[j].1 by {
                if j < old_pending.len() - 1 {
                    assert(old_pending[i].1 <= old_pending[j].1);
                } else if i < old_pending.len() - 1 {
                    assert(self.pending@[i] == old_pending[i]);
                    assert(old_pending[i].1 <= old_pending[old_pending.len() - 1].1);
                }
            }
            assert forall|i: int| 0 <= i < self.pending.len() implies self.pending@[i].1 <= self.highest
                + 1 && self.pending@[i].1 <= it + 1 by {
                if i < old_pending.len() - 1 {
                    assert(self.pending@[i] == old_pending[i]);
                    assert(old_pending[i].1 <= old_pending[old_pending.len() - 1].1);
                }
            }
            assert forall|k: int| 0 <= k < self.files.len() implies #[trigger] self.files@[k].iteration
                <= self.highest by {
                if k < old_files.len() {
                    assert(self.files@[k] == old_files[k]);
                }
            }
            if it > old_highest {
                assert(self.files@[old_files.len() as int].iteration == self.highest);
            } else if old_files.len() > 0 {
                let w = choose|w: int| 0 <= w < old_files.len() && #[trigger] old_files[w].iteration == old_highest;
                assert(self.files@[w] == old_files[w]);
            } else {
                assert(self.files@[0].iteration == self.highest);
            }
            if old_files.len() > 0 {
                assert(self.files@[0] == old_files[0]);
            }
            assert forall|k: int|
                0 <= k < self.files.len() - 1 implies #[trigger] self.files@[k + 1].iteration
                <= self.files@[k].iteration + 1 by {
                if k + 1 < old_files.len() {
                    assert(self.files@[k + 1] == old_files[k + 1]);
                    assert(self.files@[k] == old_files[k]);
                } else {
                    assert(self.files@[k] == old_files.last());
                }
            }
            let nv = self.pending_view();
            let dv = deps.deep_view();
            assert(nv == old_view.drop_last() + stacked(dv, it + 1));
            assert forall|k: int, i: int|
                0 <= k < self.files.len() && 0 <= i < self.found@[k].len() implies dependency_met(
                self.files@,
                nv,
                k,
                #[trigger] self.found@[k][i],
            ) by {
                if k < old_files.len() {
                    let d = old_found[k][i];
                    assert(self.found@[k] == old_found[k]);
                    assert(self.files@[k] == old_files[k]);
                    assert(dependency_met(old_files, old_view, k, d));
                    if exists|m: int|
                        k < m < old_files.len() && (#[trigger] old_files[m]).rootPath@ == d
                            && old_files[m].iteration == old_files[k].iteration + 1 {
                        let m = choose|m: int|
                            k < m < old_files.len() && (#[trigger] old_files[m]).rootPath@ == d
                                && old_files[m].iteration == old_files[k].iteration + 1;
                        assert(self.files@[m] == old_files[m]);
                    } else {
                        let j = choose|j: int|
                            0 <= j < old_view.len() && #[trigger] old_view[j] == (
                                d,
                                old_files[k].iteration + 1,
                            );
                        if j < old_view.len() - 1 {
                            assert(nv[j] == old_view[j]);
                        } else {
                            assert(old_view[j] == (path@, it as int));
                            assert(self.files@[old_files.len() as int] == entry);
                        }
                    }
                } else {
                    assert(self.found@[k] == dv);
                    let idx = old_view.len() - 1 + (dv.len() - 1 - i);
                    assert(stacked(dv, it + 1)[dv.len() - 1 - i] == (dv[i], it + 1));
                    assert(nv[idx] == (dv[i], it + 1));
                    assert(self.files@[k] == entry);
                }
            }
        }
        Ok(())
    }

    /// Reads the dump on top of the stack from its text: its asset class and
    /// its `/Game` references are found with the regex crate, then the dump is
    /// recorded as `record_visit` does. Fails with `PatternRefused`, changing
    /// nothing, where the crate refuses one of the two expressions.
    pub fn visit(&mut self, contents: &str) -> (res: Result<(), WalkError>)
        requires
            old(self).wf(),
        ensures
            final(self).wf(),
            old(self).pending_view().len() == 0 ==> (res matches Err(WalkError::NothingPending))
                && *final(self) == *old(self),
            old(self).pending_view().len() > 0 && !(regex_compiles(asset_class_pattern())
                && regex_compiles(game_reference_pattern())) ==> (res matches Err(
                WalkError::PatternRefused,
            )) && *final(self) == *old(self),
            old(self).pending_view().len() > 0 && regex_compiles(asset_class_pattern())
                && regex_compiles(game_reference_pattern()) ==> DependencyWalk::records(
                *old(self),
                *final(self),
                regex_group_one_captures(asset_class_pattern(), contents@),
                regex_group_one_captures(game_reference_pattern(), contents@),
                res,
            ),
    {
        if self.pending.len() == 0 {
            return Err(WalkError::NothingPending);
        }
        let asset_pattern = match CompiledPattern::compile("AssetClass\".*?\"(.*?)\"") {
            Some(p) => p,
            None => {
                return Err(WalkError::PatternRefused);
            },
        };
        let reference_pattern = match CompiledPattern::compile("(\\/Game.*?)[\"|\\.]") {
            Some(p) => p,
            None => {
                return Err(WalkError::PatternRefused);
            },
        };
        let asset_captures = asset_pattern.group_one_captures(contents);
        let reference_captures = reference_pattern.group_one_captures(contents);
        self.record_visit(&asset_captures, &reference_captures)
    }
}

/// The dependency `d` of the `k`-th dump read was itself read, later and one
/// level deeper.
pub open spec fn dependency_read(files: Seq<FileIterationInfo>, k: int, d: Seq<char>) -> bool {
    exists|m: int|
        k < m < files.len() && (#[trigger] files[m]).rootPath@ == d && files[m].iteration
            == files[k].iteration + 1
}

/// Once a walk is over, every dependency found in a dump was itself read,
/// later and one level deeper: a target's dependencies, theirs, and so on,
/// are all read.
pub proof fn law_finished_walk_read_every_dependency(walk: DependencyWalk)
    requires
        walk.wf(),
        walk.pending_view().len() == 0,
    ensures
        walk.dependencies_view().len() == walk.files_view().len(),
        forall|k: int, i: int|
            0 <= k < walk.files_view().len() && 0 <= i < walk.dependencies_view()[k].len()
                ==> dependency_read(walk.files_view(), k, #[trigger] walk.dependencies_view()[k][i]),
{
    assert forall|k: int, i: int|
        0 <= k < walk.files_view().len() && 0 <= i < walk.dependencies_view()[k].len() implies dependency_read(
        walk.files_view(),
        k,
        #[trigger] walk.dependencies_view()[k][i],
    ) by {
        assert(dependency_met(walk.files@, walk.pending_view(), k, walk.found@[k][i]));
    }
}

/// The depths of a walk: the first dump read lies at the starting depth,
/// none lies above it, each next one at most one level deeper than the one
/// read before it, and the depth the walk reports as highest is the greatest
/// depth of a dump read.
pub proof fn law_walk_depths(walk: DependencyWalk)
    requires
        walk.wf(),
    ensures
        walk.files_view().len() > 0 ==> walk.files_view()[0].iteration == walk.start_view(),
        forall|k: int|
            0 <= k < walk.files_view().len() ==> walk.start_view() <= #[trigger] walk.files_view()[k].iteration
                <= walk.highest_view(),
        walk.files_view().len() > 0 ==> exists|k: int|
            0 <= k < walk.files_view().len() && #[trigger] walk.files_view()[k].iteration
                == walk.highest_view(),
        walk.files_view().len() == 0 ==> walk.highest_view() == 0,
        forall|k: int|
            0 <= k < walk.files_view().len() - 1 ==> #[trigger] walk.files_view()[k
                + 1].iteration <= walk.files_view()[k].iteration + 1,
        walk.files_view().len() > 0 ==> forall|i: int|
            0 <= i < walk.pending_view().len() ==> #[trigger] walk.pending_view()[i].1
                <= walk.highest_view() + 1,
{
}

/// A finished walk read the targets at the starting depth, each once, in
/// the order given, and nothing else at that depth.
pub proof fn law_targets_at_start_depth(walk: DependencyWalk)
    requires
        walk.wf(),
        walk.pending_view().len() == 0,
    ensures
        paths_at_depth(walk.files_view(), walk.start_view()) == walk.targets_view(),
{
    assert(waiting_at_depth(walk.pending_view(), walk.start@ as int) =~= Seq::<Seq<char>>::empty());
    assert(paths_at_depth(walk.files@, walk.start@) + Seq::<Seq<char>>::empty() =~= paths_at_depth(
        walk.files@,
        walk.start@,
    ));
}

proof fn lemma_paths_at_depth_head(files: Seq<FileIterationInfo>, d: u32)
    requires
        files.len() > 0,
        files[0].iteration == d,
    ensures
        paths_at_depth(files, d).len() >= 1,
        paths_at_depth(files, d)[0] == files[0].rootPath@,
    decreases files.len(),
{
    if files.len() > 1 {
        let rest = files.drop_last();
        lemma_paths_at_depth_head(rest, d);
        assert(rest[0] == files[0]);
        let p = paths_at_depth(rest, d);
        if files.last().iteration == d {
            assert(p.push(files.last().rootPath@)[0] == p[0]);
        }
    } else {
        assert(files.drop_last() =~= Seq::<FileIterationInfo>::empty());
        assert(paths_at_depth(files.drop_last(), d) =~= Seq::<Seq<char>>::empty());
        assert(files.last() == files[0]);
    }
}

proof fn lemma_paths_at_depth_second(files: Seq<FileIterationInfo>, d: u32, k: int)
    requires
        files.len() > 0,
        files[0].iteration == d,
        0 < k < files.len(),
        files[k].iteration == d,
    ensures
        paths_at_depth(files, d).len() >= 2,
    decreases files.len(),
{
    if k == files.len() - 1 {
        lemma_paths_at_depth_head(files.drop_last(), d);
    } else {
        lemma_paths_at_depth_second(files.drop_last(), d, k);
    }
}

/// A finished walk from one target is that target's preorder listing: the
/// target comes first, at the starting depth, and every later dump lies
/// deeper than it and at most one level deeper than the dump read before.
pub proof fn law_single_target_preorder(walk: DependencyWalk)
    requires
        walk.wf(),
        walk.pending_view().len() == 0,
        walk.targets_view().len() == 1,
    ensures
        walk.files_view().len() >= 1,
        walk.files_view()[0].rootPath@ == walk.targets_view()[0],
        walk.files_view()[0].iteration == walk.start_view(),
        forall|k: int|
            0 < k < walk.files_view().len() ==> walk.start_view() < #[trigger] walk.files_view()[k].iteration
                <= walk.files_view()[k - 1].iteration + 1,
{
    let files = walk.files@;
    let d = walk.start@;
    law_targets_at_start_depth(walk);
    if files.len() == 0 {
        assert(paths_at_depth(files, d) =~= Seq::<Seq<char>>::empty());
    }
    lemma_paths_at_depth_head(files, d);
    assert forall|k: int| 0 < k < files.len() implies d < #[trigger] files[k].iteration
        <= files[k - 1].iteration + 1 by {
        if files[k].iteration == d {
            lemma_paths_at_depth_second(files, d, k);
        }
        assert(files[(k - 1) + 1].iteration <= files[k - 1].iteration + 1);
    }
}

/// The walk is depth first, in preorder: once a dump is recorded, the next
/// dump read is its first dependency, one level deeper; a dump without
/// dependencies leaves next the dump that waited below it.
pub proof fn law_depth_first(
    old: DependencyWalk,
    new: DependencyWalk,
    asset_caps: Seq<Option<Seq<char>>>,
    reference_caps: Seq<Option<Seq<char>>>,
    res: Result<(), WalkError>,
)
    requires
        DependencyWalk::records(old, new, asset_caps, reference_caps, res),
        res is Ok,
    ensures
        ({
            let (path, it) = old.pending_view().last();
            let deps = dependencies_of(path, capture_texts(reference_caps));
            &&& deps.len() > 0 ==> new.pending_view().last() == (deps[0], it + 1)
            &&& deps.len() == 0 ==> new.pending_view() == old.pending_view().drop_last()
        }),
{
    let (path, it) = old.pending_view().last();
    let deps = dependencies_of(path, capture_texts(reference_caps));
    if deps.len() > 0 {
        let b = stacked(deps, it + 1);
        assert(b[b.len() - 1] == (deps.reverse()[deps.len() - 1], it + 1));
        assert(new.pending_view().last() == b.last());
    } else {
        assert(stacked(deps, it + 1) =~= Seq::<(Seq<char>, int)>::empty());
        assert(old.pending_view().drop_last() + stacked(deps, it + 1) =~= old.pending_view().drop_last());
    }
}

/// Every dependency found is a dump path: it starts with `nongenout` and ends
/// with `.json`.
pub proof fn law_dependencies_are_dump_paths(own_path: Seq<char>, refs: Seq<Seq<char>>, seen: Seq<Seq<char>>)
    ensures
        forall|i: int|
            0 <= i < dependencies_from(own_path, refs, seen).len() ==> {
                let d = #[trigger] dependencies_from(own_path, refs, seen)[i];
                starts_with_seq(d, "nongenout"@) && ends_with_seq(d, ".json"@)
            },
    decreases refs.len(),
{
    if refs.len() > 0 {
        let p = dump_path_of(refs[0]);
        law_dependencies_are_dump_paths(own_path, refs.drop_first(), seen);
        law_dependencies_are_dump_paths(own_path, refs.drop_first(), seen.push(p));
        let w = with_json_extension(p);
        reveal_strlit("nongenout");
        reveal_strlit(".json");
        assert(p.take(9) =~= "nongenout"@);
        assert(w.take(9) =~= "nongenout"@);
        if !ends_with_seq(p, ".json"@) {
            assert(w.skip(w.len() - 5) =~= ".json"@);
        }
        let r = dependencies_from(own_path, refs, seen);
        if seen.contains(p) {
            assert(r == dependencies_from(own_path, refs.drop_first(), seen));
        } else if contains_seq(own_path, p) {
            assert(r == dependencies_from(own_path, refs.drop_first(), seen.push(p)));
        } else {
            let tail = dependencies_from(own_path, refs.drop_first(), seen.push(p));
            assert(r == seq![w] + tail);
            assert forall|i: int| 0 <= i < r.len() implies {
                let d = #[trigger] r[i];
                starts_with_seq(d, "nongenout"@) && ends_with_seq(d, ".json"@)
            } by {
                if i > 0 {
                    assert(r[i] == tail[i - 1]);
                }
            }
        }
    }
}

/// The `i`-th reference gives the dependency `d`: its dump path, with `.json`
/// added, is `d`, that dump path was not met before, and the dump's own path
/// does not contain it.
pub open spec fn reference_gives(own_path: Seq<char>, refs: Seq<Seq<char>>, seen: Seq<Seq<char>>, i: int, d: Seq<char>) -> bool {
    &&& 0 <= i < refs.len()
    &&& d == with_json_extension(dump_path_of(refs[i]))
    &&& !seen.contains(dump_path_of(refs[i]))
    &&& !contains_seq(own_path, dump_path_of(refs[i]))
}

/// Some reference gives the dependency `d`.
pub open spec fn given_by_reference(own_path: Seq<char>, refs: Seq<Seq<char>>, seen: Seq<Seq<char>>, d: Seq<char>) -> bool {
    exists|i: int| #[trigger] reference_gives(own_path, refs, seen, i, d)
}

proof fn lemma_with_json_injective(p: Seq<char>, q: Seq<char>)
    requires
        !ends_with_seq(p, ".json"@),
        !ends_with_seq(q, ".json"@),
        with_json_extension(p) == with_json_extension(q),
    ensures
        p == q,
{
    let j = ".json"@;
    assert(p + j == q + j);
    assert(p.len() == q.len());
    assert(p =~= (p + j).take(p.len() as int));
    assert(q =~= (q + j).take(q.len() as int));
}

proof fn lemma_seen_push(seen: Seq<Seq<char>>, p: Seq<char>, t: Seq<char>)
    ensures
        seen.push(p).contains(t) <==> (seen.contains(t) || t == p),
{
    if seen.push(p).contains(t) {
        let j = choose|j: int| 0 <= j < seen.push(p).len() && seen.push(p)[j] == t;
        if j < seen.len() {
            assert(seen[j] == t);
        }
    }
    if seen.contains(t) {
        let j = choose|j: int| 0 <= j < seen.len() && seen[j] == t;
        assert(seen.push(p)[j] == t);
    }
    if t == p {
        assert(seen.push(p)[seen.len() as int] == t);
    }
}

proof fn lemma_dependencies_from(own_path: Seq<char>, refs: Seq<Seq<char>>, seen: Seq<Seq<char>>)
    requires
        forall|i: int| 0 <= i < refs.len() ==> !ends_with_seq(dump_path_of(#[trigger] refs[i]), ".json"@),
    ensures
        dependencies_from(own_path, refs, seen).no_duplicates(),
        forall|i: int|
            0 <= i < refs.len() && !seen.contains(dump_path_of(#[trigger] refs[i])) && !contains_seq(
                own_path,
                dump_path_of(refs[i]),
            ) ==> dependencies_from(own_path, refs, seen).contains(with_json_extension(dump_path_of(refs[i]))),
        forall|k: int|
            0 <= k < dependencies_from(own_path, refs, seen).len() ==> given_by_reference(
                own_path,
                refs,
                seen,
                #[trigger] dependencies_from(own_path, refs, seen)[k],
            ),
    decreases refs.len(),
{
    if refs.len() > 0 {
        let p = dump_path_of(refs[0]);
        let tail_refs = refs.drop_first();
        assert forall|i: int| 0 <= i < tail_refs.len() implies !ends_with_seq(dump_path_of(#[trigger] tail_refs[i]), ".json"@) by {
            assert(tail_refs[i] == refs[i + 1]);
        }
        let r = dependencies_from(own_path, refs, seen);
        let seen2 = if seen.contains(p) { seen } else { seen.push(p) };
        lemma_dependencies_from(own_path, tail_refs, seen2);
        let rt = dependencies_from(own_path, tail_refs, seen2);
        // Every dependency of the rest comes from a later reference not met before.
        assert forall|k: int| #![trigger rt[k]] 0 <= k < rt.len() implies exists|i: int|
            #[trigger] reference_gives(own_path, refs, seen, i, rt[k]) && dump_path_of(refs[i]) != p by {
            assert(given_by_reference(own_path, tail_refs, seen2, rt[k]));
            let i = choose|i: int| #[trigger] reference_gives(own_path, tail_refs, seen2, i, rt[k]);
            assert(refs[i + 1] == tail_refs[i]);
            lemma_seen_push(seen, p, dump_path_of(tail_refs[i]));
            assert(reference_gives(own_path, refs, seen, i + 1, rt[k]));
        }
        assert forall|i: int|
            0 <= i < refs.len() && !seen.contains(dump_path_of(#[trigger] refs[i])) && !contains_seq(
                own_path,
                dump_path_of(refs[i]),
            ) && dump_path_of(refs[i]) != p implies rt.contains(with_json_extension(dump_path_of(refs[i]))) by {
            if i > 0 {
                assert(tail_refs[i - 1] == refs[i]);
                lemma_seen_push(seen, p, dump_path_of(refs[i]));
            }
        }
        if seen.contains(p) || contains_seq(own_path, p) {
            assert(r == rt);
            assert forall|k: int| 0 <= k < r.len() implies given_by_reference(own_path, refs, seen, #[trigger] r[k]) by {
                let i = choose|i: int| #[trigger] reference_gives(own_path, refs, seen, i, rt[k]) && dump_path_of(refs[i]) != p;
                assert(reference_gives(own_path, refs, seen, i, r[k]));
            }
        } else {
            let w = with_json_extension(p);
            assert(r == seq![w] + rt);
            assert forall|k: int| 0 <= k < rt.len() implies rt[k] != w by {
                let i = choose|i: int| #[trigger] reference_gives(own_path, refs, seen, i, rt[k]) && dump_path_of(refs[i]) != p;
                if rt[k] == w {
                    lemma_with_json_injective(dump_path_of(refs[i]), p);
                }
            }
            assert forall|a: int, b: int| 0 <= a < r.len() && 0 <= b < r.len() && a != b implies r[a] != r[b] by {
                if a > 0 && b > 0 {
                    assert(r[a] == rt[a - 1] && r[b] == rt[b - 1]);
                } else if a == 0 {
                    assert(r[b] == rt[b - 1]);
                } else {
                    assert(r[a] == rt[a - 1]);
                }
            }
            assert(reference_gives(own_path, refs, seen, 0, r[0]));
            assert forall|k: int| 0 <= k < r.len() implies given_by_reference(own_path, refs, seen, #[trigger] r[k]) by {
                if k > 0 {
                    assert(r[k] == rt[k - 1]);
                } else {
                    assert(reference_gives(own_path, refs, seen, 0, r[0]));
                }
            }
            assert forall|i: int|
                0 <= i < refs.len() && !seen.contains(dump_path_of(#[trigger] refs[i])) && !contains_seq(
                    own_path,
                    dump_path_of(refs[i]),
                ) implies r.contains(with_json_extension(dump_path_of(refs[i]))) by {
                if dump_path_of(refs[i]) == p {
                    assert(r[0] == w);
                } else {
                    let j = choose|j: int| 0 <= j < rt.len() && rt[j] == with_json_extension(dump_path_of(refs[i]));
                    assert(r[j + 1] == rt[j]);
                }
            }
        }
    }
}

/// The dependencies found in a dump name each referenced dump once: none
/// occurs twice; every dump path referenced, other than one the dump's own
/// path contains, occurs (with `.json` added); and nothing else occurs.
/// (A `/Game` reference as the expression captures it ends before any `.`,
/// so none already names a `.json` dump; where two references differ only
/// by a `.json` ending both give the same dump path.)
pub proof fn law_dependencies_each_once(path: Seq<char>, refs: Seq<Seq<char>>)
    requires
        forall|i: int| 0 <= i < refs.len() ==> !ends_with_seq(dump_path_of(#[trigger] refs[i]), ".json"@),
    ensures
        dependencies_of(path, refs).no_duplicates(),
        forall|i: int|
            0 <= i < refs.len() && !contains_seq(slashed(path), dump_path_of(#[trigger] refs[i]))
                ==> dependencies_of(path, refs).contains(with_json_extension(dump_path_of(refs[i]))),
        forall|k: int|
            0 <= k < dependencies_of(path, refs).len() ==> given_by_reference(
                slashed(path),
                refs,
                Seq::empty(),
                #[trigger] dependencies_of(path, refs)[k],
            ),
{
    let d = dependencies_from(slashed(path), refs, Seq::empty());
    lemma_dependencies_from(slashed(path), refs, Seq::empty());
    assert forall|k: int| 0 <= k < dependencies_of(path, refs).len() implies given_by_reference(
        slashed(path),
        refs,
        Seq::empty(),
        #[trigger] dependencies_of(path, refs)[k],
    ) by {
        assert(d[k] == dependencies_of(path, refs)[k]);
    }
}

} // verus!
