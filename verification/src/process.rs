//! Generation planning: the rounds of generation by depth, the order of
//! asset classes, the paths of the generated assets, the commands that
//! generate them, and the search of dumps.
use vstd::prelude::*;
use crate::text::{concat_str, contains_seq, contains_str, replace_seq, replace_str};
use crate::walk::{contains_string, law_walk_depths, DependencyWalk, FileIterationInfo};

verus! {

/// The indices of the records at depth `iteration`, in increasing order.
pub open spec fn indices_at(files: Seq<FileIterationInfo>, iteration: u32, idx: Seq<usize>) -> bool {
    &&& forall|a: int, b: int| 0 <= a < b < idx.len() ==> idx[a] < idx[b]
    &&& forall|a: int| 0 <= a < idx.len() ==> #[trigger] idx[a] < files.len() && files[idx[a] as int].iteration == iteration
    &&& forall|i: int| 0 <= i < files.len() && #[trigger] files[i].iteration == iteration ==> idx.contains(i as usize)
}

/// The positions, below `n`, of the records at depth `iteration`, in
/// increasing order.
pub open spec fn depth_indices(files: Seq<FileIterationInfo>, iteration: u32, n: int) -> Seq<usize>
    decreases n,
{
    if n <= 0 {
        Seq::empty()
    } else {
        let rest = depth_indices(files, iteration, n - 1);
        if files[n - 1].iteration == iteration {
            rest.push((n - 1) as usize)
        } else {
            rest
        }
    }
}

/// The positions of the records met at depth `iteration`, in the order they
/// were met: the assets generated in one round.
pub fn files_at_iteration(files: &Vec<FileIterationInfo>, iteration: u32) -> (idx: Vec<usize>)
    ensures
        indices_at(files@, iteration, idx@),
        idx@ == depth_indices(files@, iteration, files@.len() as int),
{
    let mut idx: Vec<usize> = Vec::new();
    let mut i: usize = 0;
    while i < files.len()
        invariant
            i <= files.len(),
            forall|a: int, b: int| 0 <= a < b < idx.len() ==> idx@[a] < idx@[b],
            forall|a: int| 0 <= a < idx.len() ==> #[trigger] idx@[a] < i && files@[idx@[a] as int].iteration == iteration,
            forall|j: int| 0 <= j < i && #[trigger] files@[j].iteration == iteration ==> idx@.contains(j as usize),
            idx@ == depth_indices(files@, iteration, i as int),
        decreases files.len() - i,
    {
        if files[i].iteration == iteration {
            let ghost before = idx@;
            idx.push(i);
            assert forall|j: int| 0 <= j < i + 1 && #[trigger] files@[j].iteration == iteration implies idx@.contains(j as usize) by {
                if j < i {
                    let w = choose|w: int| 0 <= w < before.len() && before[w] == j as usize;
                    assert(idx@[w] == j as usize);
                } else {
                    assert(idx@[idx.len() - 1] == i);
                }
            }
        }
        i = i + 1;
    }
    idx
}

/// The texts of `s`, each kept at its first occurrence only.
pub open spec fn first_occurrences(s: Seq<Seq<char>>) -> Seq<Seq<char>>
    decreases s.len(),
{
    if s.len() == 0 {
        Seq::empty()
    } else {
        let d = first_occurrences(s.drop_last());
        if d.contains(s.last()) {
            d
        } else {
            d.push(s.last())
        }
    }
}

/// The asset classes of the chosen records, each once, in the order first met.
pub fn distinct_asset_types(files: &Vec<FileIterationInfo>, chosen: &Vec<usize>) -> (types: Vec<String>)
    requires
        forall|a: int| 0 <= a < chosen.len() ==> #[trigger] chosen@[a] < files.len(),
    ensures
        types.deep_view() == first_occurrences(chosen@.map_values(|i: usize| files@[i as int].assetType@)),
{
    let ghost all = chosen@.map_values(|i: usize| files@[i as int].assetType@);
    let mut types: Vec<String> = Vec::new();
    let mut k: usize = 0;
    assert(types.deep_view() == Seq::<Seq<char>>::empty());
    while k < chosen.len()
        invariant
            k <= chosen.len(),
            all == chosen@.map_values(|i: usize| files@[i as int].assetType@),
            forall|a: int| 0 <= a < chosen.len() ==> #[trigger] chosen@[a] < files.len(),
            types.deep_view() == first_occurrences(all.take(k as int)),
        decreases chosen.len() - k,
    {
        let t = &files[chosen[k]].assetType;
        assert(all.take(k + 1).drop_last() == all.take(k as int));
        assert(all.take(k + 1).last() == t@);
        let ghost before = types.deep_view();
        if !contains_string(&types, t) {
            types.push(t.clone());
            assert(types.deep_view() == before.push(t@));
        }
        k = k + 1;
    }
    assert(all.take(chosen.len() as int) == all);
    types
}

/// The position of the first occurrence of `t` in `order` (the length of
/// `order` where `t` does not occur).
pub open spec fn position_in(order: Seq<Seq<char>>, t: Seq<char>) -> int
    decreases order.len(),
{
    if order.len() == 0 {
        0
    } else if order[0] == t {
        0
    } else {
        1 + position_in(order.drop_first(), t)
    }
}

proof fn lemma_position_at(order: Seq<Seq<char>>, t: Seq<char>, i: int)
    requires
        0 <= i < order.len(),
        order[i] == t,
        forall|j: int| 0 <= j < i ==> order[j] != t,
    ensures
        position_in(order, t) == i,
    decreases i,
{
    if i > 0 {
        lemma_position_at(order.drop_first(), t, i - 1);
    }
}

/// Where `t` first occurs in `order`; `None` where it does not occur.
pub fn position_of(order: &Vec<String>, t: &String) -> (res: Option<usize>)
    ensures
        match res {
            Some(p) => p < order.len() && p == position_in(order.deep_view(), t@)
                && order.deep_view()[p as int] == t@,
            None => !order.deep_view().contains(t@),
        },
{
    let mut i: usize = 0;
    while i < order.len()
        invariant
            i <= order.len(),
            forall|j: int| 0 <= j < i ==> order.deep_view()[j] != t@,
        decreases order.len() - i,
    {
        if order[i] == *t {
            proof {
                lemma_position_at(order.deep_view(), t@, i as int);
            }
            return Some(i);
        }
        i = i + 1;
    }
    None
}

/// The texts are in the order of their first occurrence in `order`.
pub open spec fn sorted_by_position(s: Seq<Seq<char>>, order: Seq<Seq<char>>) -> bool {
    forall|i: int, j: int|
        0 <= i < j < s.len() ==> position_in(order, #[trigger] s[i]) <= position_in(order, #[trigger] s[j])
}

proof fn lemma_insert_to_multiset<A>(s: Seq<A>, p: int, x: A)
    requires
        0 <= p <= s.len(),
    ensures
        s.insert(p, x).to_multiset() == s.to_multiset().insert(x),
{
    broadcast use vstd::seq_lib::group_to_multiset_ensures;
    let t = s.insert(p, x);
    assert(t.remove(p) =~= s);
    assert(t[p] == x);
    assert(t.to_multiset().count(x) > 0);
    assert(t.to_multiset() =~= s.to_multiset().insert(x));
}

/// `s` with `x` placed after every leading entry that comes no later than it
/// in `order` (a stable insertion).
pub open spec fn insert_by_position(s: Seq<Seq<char>>, x: Seq<char>, order: Seq<Seq<char>>) -> Seq<Seq<char>>
    decreases s.len(),
{
    if s.len() == 0 {
        seq![x]
    } else if position_in(order, s[0]) <= position_in(order, x) {
        seq![s[0]] + insert_by_position(s.drop_first(), x, order)
    } else {
        seq![x] + s
    }
}

/// `s` sorted stably by the position of each entry in `order`.
pub open spec fn sort_by_position(s: Seq<Seq<char>>, order: Seq<Seq<char>>) -> Seq<Seq<char>>
    decreases s.len(),
{
    if s.len() == 0 {
        Seq::empty()
    } else {
        insert_by_position(sort_by_position(s.drop_last(), order), s.last(), order)
    }
}

/// The asset classes in generation order: as given where there are fewer
/// than two, else sorted by their position in the configured order; `None`
/// where two or more must be compared and there is no order or a class is
/// missing from it.
pub open spec fn ordered_types(types: Seq<Seq<char>>, order: Option<Seq<Seq<char>>>) -> Option<Seq<Seq<char>>> {
    if types.len() <= 1 {
        Some(types)
    } else {
        match order {
            Some(o) => if forall|i: int| 0 <= i < types.len() ==> o.contains(#[trigger] types[i]) {
                Some(sort_by_position(types, o))
            } else {
                None
            },
            None => None,
        }
    }
}

/// The texts of an optional list of strings.
pub open spec fn order_view(order: Option<&Vec<String>>) -> Option<Seq<Seq<char>>> {
    match order {
        Some(o) => Some(o.deep_view()),
        None => None,
    }
}

proof fn lemma_insert_by_position(s: Seq<Seq<char>>, x: Seq<char>, order: Seq<Seq<char>>, p: int)
    requires
        0 <= p <= s.len(),
        forall|a: int| 0 <= a < p ==> position_in(order, #[trigger] s[a]) <= position_in(order, x),
        p < s.len() ==> position_in(order, s[p]) > position_in(order, x),
    ensures
        insert_by_position(s, x, order) == s.insert(p, x),
    decreases p,
{
    if p == 0 {
        if s.len() == 0 {
            assert(s.insert(0, x) =~= seq![x]);
        } else {
            assert(s.insert(0, x) =~= seq![x] + s);
        }
    } else {
        assert(position_in(order, s[0]) <= position_in(order, x));
        let t = s.drop_first();
        assert forall|a: int| 0 <= a < p - 1 implies position_in(order, #[trigger] t[a]) <= position_in(order, x) by {
            assert(t[a] == s[a + 1]);
        }
        if p - 1 < t.len() {
            assert(t[p - 1] == s[p]);
        }
        lemma_insert_by_position(t, x, order, p - 1);
        assert(seq![s[0]] + t.insert(p - 1, x) =~= s.insert(p, x));
    }
}

/// The asset classes ordered by where they first occur in the configured
/// order, as a stable sort compares them. The comparison looks each class up
/// in the order and fails where there is no order or a class is missing from
/// it; no comparison is made where there are fewer than two classes. `None`
/// exactly when a comparison fails.
pub fn order_asset_types(types: &Vec<String>, order: Option<&Vec<String>>) -> (res: Option<Vec<String>>)
    ensures
        match ordered_types(types.deep_view(), order_view(order)) {
            Some(t) => res matches Some(r) && r.deep_view() == t,
            None => res is None,
        },
        types.len() <= 1 ==> (res matches Some(r) && r.deep_view() == types.deep_view()),
        types.len() >= 2 ==> (res is Some <==> (order matches Some(o) && forall|i: int|
            0 <= i < types.len() ==> o.deep_view().contains(#[trigger] types.deep_view()[i]))),
        res matches Some(r) ==> r.deep_view().to_multiset() == types.deep_view().to_multiset(),
        res matches Some(r) ==> order matches Some(o) ==> sorted_by_position(r.deep_view(), o.deep_view()),
{
    if types.len() <= 1 {
        let r = types.clone();
        proof {
            if types.len() == 1 {
                assert(r.deep_view() =~= types.deep_view());
            }
            assert(r.deep_view() =~= types.deep_view());
        }
        return Some(r);
    }
    let o = match order {
        Some(o) => o,
        None => {
            return None;
        },
    };
    let ghost ov = o.deep_view();
    let mut sorted: Vec<String> = Vec::new();
    let mut keys: Vec<usize> = Vec::new();
    let mut i: usize = 0;
    assert(types.deep_view().take(0).to_multiset() =~= sorted.deep_view().to_multiset()) by {
        assert(types.deep_view().take(0) =~= sorted.deep_view());
    }
    while i < types.len()
        invariant
            i <= types.len(),
            types.len() >= 2,
            order == Some(o),
            ov == o.deep_view(),
            keys.len() == sorted.len(),
            forall|a: int| 0 <= a < i ==> ov.contains(#[trigger] types.deep_view()[a]),
            forall|a: int| 0 <= a < keys.len() ==> #[trigger] keys@[a] == position_in(ov, sorted.deep_view()[a]),
            forall|a: int, b: int| 0 <= a < b < keys.len() ==> keys@[a] <= keys@[b],
            sorted.deep_view().to_multiset() == types.deep_view().take(i as int).to_multiset(),
            sorted.deep_view() == sort_by_position(types.deep_view().take(i as int), ov),
        decreases types.len() - i,
    {
        let key: usize = match position_of(o, &types[i]) {
            Some(k) => k,
            None => {
                assert(!ov.contains(types.deep_view()[i as int]));
                return None;
            },
        };
        assert(ov[key as int] == types.deep_view()[i as int]);
        let mut p: usize = 0;
        while p < keys.len() && keys[p] <= key
            invariant
                p <= keys.len(),
                forall|a: int| 0 <= a < p ==> keys@[a] <= key,
            decreases keys.len() - p,
        {
            p = p + 1;
        }
        let ghost before = sorted.deep_view();
        let ghost keys_before = keys@;
        sorted.insert(p, types[i].clone());
        keys.insert(p, key);
        proof {
            assert(sorted.deep_view() =~= before.insert(p as int, types.deep_view()[i as int]));
            assert forall|a: int| 0 <= a < p implies position_in(ov, #[trigger] before[a]) <= position_in(ov, types.deep_view()[i as int]) by {
                assert(keys_before[a] <= key);
            }
            lemma_insert_by_position(before, types.deep_view()[i as int], ov, p as int);
            assert(types.deep_view().take(i + 1).drop_last() =~= types.deep_view().take(i as int));
            lemma_insert_to_multiset(before, p as int, types.deep_view()[i as int]);
            broadcast use vstd::seq_lib::group_to_multiset_ensures;
            assert(types.deep_view().take(i + 1) =~= types.deep_view().take(i as int).push(types.deep_view()[i as int]));
            assert forall|a: int| 0 <= a < keys.len() implies #[trigger] keys@[a] == position_in(ov, sorted.deep_view()[a]) by {
                if a < p {
                    assert(keys@[a] == keys_before[a]);
                    assert(sorted.deep_view()[a] == before[a]);
                } else if a > p {
                    assert(keys@[a] == keys_before[a - 1]);
                    assert(sorted.deep_view()[a] == before[a - 1]);
                }
            }
            assert forall|a: int, b: int| 0 <= a < b < keys.len() implies keys@[a] <= keys@[b] by {
                if b < p {
                    assert(keys@[a] == keys_before[a] && keys@[b] == keys_before[b]);
                } else if b == p {
                    assert(keys@[a] == keys_before[a]);
                } else if a < p {
                    assert(keys@[a] == keys_before[a] && keys@[b] == keys_before[b - 1]);
                    if p < keys_before.len() {
                        assert(keys_before[a] <= keys_before[p as int]);
                    }
                } else if a == p {
                    assert(keys@[b] == keys_before[b - 1]);
                } else {
                    assert(keys@[a] == keys_before[a - 1] && keys@[b] == keys_before[b - 1]);
                }
            }
        }
        i = i + 1;
    }
    assert(types.deep_view().take(types.len() as int) == types.deep_view());
    assert(sorted_by_position(sorted.deep_view(), ov)) by {
        assert forall|a: int, b: int| 0 <= a < b < sorted.deep_view().len() implies position_in(ov, #[trigger] sorted.deep_view()[a])
            <= position_in(ov, #[trigger] sorted.deep_view()[b]) by {
            assert(keys@[a] <= keys@[b]);
        }
    }
    Some(sorted)
}

/// The dump paths of the targets in a directory listing (name, whether a
/// directory): the directory, a `/`, and the name of each entry that is not a
/// directory, in listing order.
pub open spec fn directory_target_paths(dir: Seq<char>, listing: Seq<(Seq<char>, bool)>) -> Seq<Seq<char>>
    decreases listing.len(),
{
    if listing.len() == 0 {
        Seq::empty()
    } else {
        let rest = directory_target_paths(dir, listing.drop_last());
        if listing.last().1 {
            rest
        } else {
            rest.push(dir + "/"@ + listing.last().0)
        }
    }
}

/// The dump paths of the targets in a directory listing, each entry given by
/// its name and whether it is a directory: the entries that are not
/// directories, as the directory, a `/` and the name, in listing order.
pub fn directory_targets(dir: &str, listing: &Vec<(String, bool)>) -> (targets: Vec<String>)
    ensures
        targets.deep_view() == directory_target_paths(
            dir@,
            listing@.map_values(|e: (String, bool)| (e.0@, e.1)),
        ),
{
    let ghost view = listing@.map_values(|e: (String, bool)| (e.0@, e.1));
    let mut targets: Vec<String> = Vec::new();
    let mut i: usize = 0;
    assert(targets.deep_view() == Seq::<Seq<char>>::empty());
    while i < listing.len()
        invariant
            i <= listing.len(),
            view == listing@.map_values(|e: (String, bool)| (e.0@, e.1)),
            targets.deep_view() == directory_target_paths(dir@, view.take(i as int)),
        decreases listing.len() - i,
    {
        assert(view.take(i + 1).drop_last() == view.take(i as int));
        assert(view.take(i + 1).last() == (listing@[i as int].0@, listing@[i as int].1));
        if !listing[i].1 {
            let t = concat_str(concat_str(dir, "/").as_str(), listing[i].0.as_str());
            let ghost before = targets.deep_view();
            targets.push(t);
            assert(targets.deep_view() == before.push(t@));
        }
        i = i + 1;
    }
    assert(view.take(listing.len() as int) == view);
    targets
}

/// The path of a dump relative to the dump directory, with the dump
/// directory's text taken out everywhere, `.json` turned into `.uasset` and
/// the `Game` folder into `Content` (a `\Game\` becoming `sub`).
pub open spec fn asset_path_with(root: Seq<char>, dump_dir: Seq<char>, sub: Seq<char>) -> Seq<char> {
    replace_seq(
        replace_seq(replace_seq(replace_seq(root, dump_dir, ""@), ".json"@, ".uasset"@), "\\Game\\"@, sub),
        "/Game/"@,
        "Content/"@,
    )
}

fn asset_path_with_exec(root: &str, dump_dir: &str, sub: &str) -> (res: String)
    ensures
        res@ == asset_path_with(root@, dump_dir@, sub@),
{
    let a = replace_str(root, dump_dir, "");
    let b = replace_str(a.as_str(), ".json", ".uasset");
    let c = replace_str(b.as_str(), "\\Game\\", sub);
    replace_str(c.as_str(), "/Game/", "Content/")
}

/// The asset path, relative to the project directory, of the asset to remove
/// before a dump is generated anew (a `\Game\` becomes `/Content/`).
pub fn asset_path_for_removal(root: &str, dump_dir: &str) -> (res: String)
    ensures
        res@ == asset_path_with(root@, dump_dir@, "/Content/"@),
{
    asset_path_with_exec(root, dump_dir, "/Content/")
}

/// The asset path, relative to the project directory, where a generated
/// asset is looked for to report success (a `\Game\` becomes `Content/`).
pub fn asset_path_for_report(root: &str, dump_dir: &str) -> (res: String)
    ensures
        res@ == asset_path_with(root@, dump_dir@, "Content/"@),
{
    asset_path_with_exec(root, dump_dir, "Content/")
}

/// The canonical dump directory as the generator is given it: `\` turned
/// into `/`, and the `//?/` of a verbatim path dropped.
pub open spec fn cleaned_dump_dir(canonical: Seq<char>) -> Seq<char> {
    replace_seq(replace_seq(canonical, "\\"@, "/"@), "//?/"@, ""@)
}

/// The canonical dump directory as the generator is given it.
pub fn clean_dump_dir(canonical: &str) -> (res: String)
    ensures
        res@ == cleaned_dump_dir(canonical@),
{
    let a = replace_str(canonical, "\\", "/");
    replace_str(a.as_str(), "//?/", "")
}

/// What `{:#?}` formats a string as (a quoted, escaped literal).
pub uninterp spec fn debug_string(s: Seq<char>) -> Seq<char>;

/// `s` formatted with `{:#?}`. Trusted: the result is std's `Debug`
/// formatting of a string, named by `debug_string`.
#[verifier::external_body]
pub(crate) fn debug_quoted(s: &str) -> (res: String)
    ensures
        res@ == debug_string(s@),
{
    format!("{:#?}", s)
}

/// The arguments the generator is run with for the assets of one class: the
/// quoted project, the generator command, the quoted dump directory, the
/// class, the log file and the unattended flags, and `-NoRefresh` unless
/// existing assets are refreshed.
pub open spec fn generation_arguments(
    project: Seq<char>,
    quoted_dump_dir: Seq<char>,
    asset_type: Seq<char>,
    refresh: bool,
) -> Seq<Seq<char>> {
    seq![
        "\""@ + project + "\""@,
        "-run=AssetGenerator"@,
        "-DumpDirectory="@ + quoted_dump_dir,
        "-AssetClassWhitelist=\""@ + asset_type + "\""@,
        "abslog=\"D:/UE5/Projects/PaydayAssetGen/MoolahProject-main/Manual/logs/genlog.txt\""@,
        "-stdout"@,
        "-unattended"@,
    ] + (if refresh { Seq::empty() } else { seq!["-NoRefresh"@] })
}

/// The arguments for the generator, from the already quoted dump directory.
pub fn generation_arguments_exec(
    project: &str,
    quoted_dump_dir: &str,
    asset_type: &str,
    refresh: bool,
) -> (args: Vec<String>)
    ensures
        args.deep_view() == generation_arguments(project@, quoted_dump_dir@, asset_type@, refresh),
{
    let mut args: Vec<String> = Vec::new();
    let mut a = String::from_str("\"");
    a.append(project);
    a.append("\"");
    args.push(a);
    args.push(String::from_str("-run=AssetGenerator"));
    args.push(concat_str("-DumpDirectory=", quoted_dump_dir));
    let mut w = String::from_str("-AssetClassWhitelist=\"");
    w.append(asset_type);
    w.append("\"");
    args.push(w);
    args.push(
        String::from_str(
            "abslog=\"D:/UE5/Projects/PaydayAssetGen/MoolahProject-main/Manual/logs/genlog.txt\"",
        ),
    );
    args.push(String::from_str("-stdout"));
    args.push(String::from_str("-unattended"));
    if !refresh {
        args.push(String::from_str("-NoRefresh"));
    }
    assert(args.deep_view() =~= generation_arguments(project@, quoted_dump_dir@, asset_type@, refresh));
    args
}

/// The program and the arguments that generate the assets of one class: the
/// configured executable, kept whole, and the arguments, with the canonical
/// dump directory cleaned and then quoted as `{:#?}` quotes it.
pub fn generation_command(
    ue4cmd: &str,
    project: &str,
    canonical_dump_dir: &str,
    asset_type: &str,
    refresh: bool,
) -> (res: (String, Vec<String>))
    ensures
        res.0@ == ue4cmd@,
        res.1.deep_view() == generation_arguments(
            project@,
            debug_string(cleaned_dump_dir(canonical_dump_dir@)),
            asset_type@,
            refresh,
        ),
{
    let cleaned = clean_dump_dir(canonical_dump_dir);
    let quoted = debug_quoted(cleaned.as_str());
    let args = generation_arguments_exec(project, quoted.as_str(), asset_type, refresh);
    (String::from_str(ue4cmd), args)
}

/// What `str::to_lowercase` gives (Unicode lower-case mapping).
pub uninterp spec fn lowercase(s: Seq<char>) -> Seq<char>;

/// `s` in lower case (`str::to_lowercase`). Trusted: the result is std's,
/// named by `lowercase`.
#[verifier::external_body]
fn to_lowercase(s: &str) -> (res: String)
    ensures
        res@ == lowercase(s@),
{
    s.to_lowercase()
}

/// Whether a dump's text holds the searched text, both taken in lower case.
pub fn matches_ignoring_case(contents: &str, searched: &str) -> (b: bool)
    ensures
        b == contains_seq(lowercase(contents@), lowercase(searched@)),
{
    let c = to_lowercase(contents);
    let m = to_lowercase(searched);
    contains_str(c.as_str(), m.as_str())
}

/// The paths whose texts hold the searched text, both taken in lower case,
/// in the order given.
pub open spec fn matching_paths(paths: Seq<Seq<char>>, contents: Seq<Seq<char>>, searched: Seq<char>) -> Seq<Seq<char>>
    decreases paths.len(),
{
    if paths.len() == 0 || contents.len() == 0 {
        Seq::empty()
    } else {
        let rest = matching_paths(paths.drop_last(), contents.drop_last(), searched);
        if contains_seq(lowercase(contents.last()), lowercase(searched)) {
            rest.push(paths.last())
        } else {
            rest
        }
    }
}

/// The dumps, of those given with their texts, that hold the searched text
/// whatever its case, in the order given.
pub fn matching_files(paths: &Vec<String>, contents: &Vec<String>, searched: &str) -> (res: Vec<String>)
    requires
        paths.len() == contents.len(),
    ensures
        res.deep_view() == matching_paths(paths.deep_view(), contents.deep_view(), searched@),
{
    let mut res: Vec<String> = Vec::new();
    let mut i: usize = 0;
    assert(res.deep_view() == Seq::<Seq<char>>::empty());
    while i < paths.len()
        invariant
            i <= paths.len(),
            paths.len() == contents.len(),
            res.deep_view() == matching_paths(
                paths.deep_view().take(i as int),
                contents.deep_view().take(i as int),
                searched@,
            ),
        decreases paths.len() - i,
    {
        assert(paths.deep_view().take(i + 1).drop_last() == paths.deep_view().take(i as int));
        assert(contents.deep_view().take(i + 1).drop_last() == contents.deep_view().take(i as int));
        assert(contents.deep_view().take(i + 1).last() == contents[i as int]@);
        assert(paths.deep_view().take(i + 1).last() == paths[i as int]@);
        let ghost before = res.deep_view();
        if matches_ignoring_case(contents[i].as_str(), searched) {
            res.push(paths[i].clone());
            assert(res.deep_view() == before.push(paths[i as int]@));
        }
        i = i + 1;
    }
    assert(paths.deep_view().take(i as int) == paths.deep_view());
    assert(contents.deep_view().take(i as int) == contents.deep_view());
    res
}

/// Every dump a walk read is generated in exactly one round, that of its
/// depth: the rounds from the walk's highest depth down to zero cover them all.
pub proof fn law_rounds_cover_walk(walk: DependencyWalk, rounds: Seq<Seq<usize>>)
    requires
        walk.wf(),
        walk.files_view().len() <= usize::MAX,
        rounds.len() == walk.highest_view() + 1,
        forall|r: int|
            0 <= r <= walk.highest_view() ==> indices_at(walk.files_view(), r as u32, #[trigger] rounds[r]),
    ensures
        forall|i: int|
            0 <= i < walk.files_view().len() ==> #[trigger] walk.files_view()[i].iteration
                <= walk.highest_view() && rounds[walk.files_view()[i].iteration as int].contains(i as usize),
        forall|i: int, r: int|
            0 <= i < walk.files_view().len() && 0 <= r <= walk.highest_view() ==> (
            #[trigger] rounds[r].contains(i as usize) <==> walk.files_view()[i].iteration == r),
{
    law_walk_depths(walk);
    let files = walk.files_view();
    let highest = walk.highest_view();
    assert forall|i: int, r: int|
        0 <= i < files.len() && 0 <= r <= highest implies (#[trigger] rounds[r].contains(i as usize)
        <==> files[i].iteration == r) by {
        assert(indices_at(files, r as u32, rounds[r]));
        if rounds[r].contains(i as usize) {
            let k = choose|k: int| 0 <= k < rounds[r].len() && rounds[r][k] == i as usize;
            assert(files[rounds[r][k] as int].iteration == r as u32);
        }
        if files[i].iteration == r {
            assert(files[i].iteration == r as u32);
        }
    }
    assert forall|i: int| 0 <= i < files.len() implies #[trigger] files[i].iteration <= highest
        && rounds[files[i].iteration as int].contains(i as usize) by {
        let r = files[i].iteration as int;
        assert(indices_at(files, r as u32, rounds[r]));
        assert(files[i].iteration == r as u32);
    }
}

proof fn lemma_push_contains(s: Seq<Seq<char>>, x: Seq<char>, t: Seq<char>)
    ensures
        s.push(x).contains(t) <==> (s.contains(t) || t == x),
{
    if s.push(x).contains(t) {
        let j = choose|j: int| 0 <= j < s.push(x).len() && s.push(x)[j] == t;
        if j < s.len() {
            assert(s[j] == t);
        }
    }
    if s.contains(t) {
        let j = choose|j: int| 0 <= j < s.len() && s[j] == t;
        assert(s.push(x)[j] == t);
    }
    if t == x {
        assert(s.push(x)[s.len() as int] == t);
    }
}

proof fn lemma_drop_last_contains(s: Seq<Seq<char>>, t: Seq<char>)
    requires
        s.len() > 0,
    ensures
        s.contains(t) <==> (s.drop_last().contains(t) || t == s.last()),
{
    assert(s.drop_last().push(s.last()) =~= s);
    lemma_push_contains(s.drop_last(), s.last(), t);
}

/// A round's asset classes name each class of its dumps once: no class
/// occurs twice, and a class occurs exactly when one of the dumps has it.
pub proof fn law_classes_each_once(s: Seq<Seq<char>>)
    ensures
        first_occurrences(s).no_duplicates(),
        forall|t: Seq<char>| first_occurrences(s).contains(t) <==> s.contains(t),
    decreases s.len(),
{
    if s.len() > 0 {
        law_classes_each_once(s.drop_last());
        let d = first_occurrences(s.drop_last());
        let x = s.last();
        assert forall|t: Seq<char>| first_occurrences(s).contains(t) <==> s.contains(t) by {
            lemma_drop_last_contains(s, t);
            lemma_push_contains(d, x, t);
        }
        if !d.contains(x) {
            let r = d.push(x);
            assert forall|a: int, b: int| 0 <= a < r.len() && 0 <= b < r.len() && a != b implies r[a] != r[b] by {
                if a < d.len() && b < d.len() {
                    assert(r[a] == d[a] && r[b] == d[b]);
                } else if a < d.len() {
                    assert(r[a] == d[a]);
                } else {
                    assert(r[b] == d[b]);
                }
            }
        }
    }
}

/// The search ignores case on both sides: a path is kept exactly when its
/// text, in lower case, holds the searched text in lower case; so two
/// searched texts with the same lower case keep the same paths.
pub proof fn law_search_ignores_case(paths: Seq<Seq<char>>, contents: Seq<Seq<char>>, s: Seq<char>, t: Seq<char>)
    requires
        paths.len() == contents.len(),
    ensures
        forall|x: Seq<char>|
            matching_paths(paths, contents, s).contains(x) <==> exists|i: int|
                0 <= i < paths.len() && #[trigger] paths[i] == x && contains_seq(lowercase(contents[i]), lowercase(s)),
        lowercase(s) == lowercase(t) ==> matching_paths(paths, contents, s) == matching_paths(paths, contents, t),
    decreases paths.len(),
{
    if paths.len() > 0 {
        let ps = paths.drop_last();
        let cs = contents.drop_last();
        law_search_ignores_case(ps, cs, s, t);
        let rest = matching_paths(ps, cs, s);
        let kept = contains_seq(lowercase(contents.last()), lowercase(s));
        assert forall|x: Seq<char>|
            matching_paths(paths, contents, s).contains(x) <==> exists|i: int|
                0 <= i < paths.len() && #[trigger] paths[i] == x && contains_seq(lowercase(contents[i]), lowercase(s)) by {
            lemma_push_contains(rest, paths.last(), x);
            if exists|i: int|
                0 <= i < paths.len() && #[trigger] paths[i] == x && contains_seq(lowercase(contents[i]), lowercase(s)) {
                let i = choose|i: int|
                    0 <= i < paths.len() && #[trigger] paths[i] == x && contains_seq(lowercase(contents[i]), lowercase(s));
                if i < ps.len() {
                    assert(ps[i] == x && cs[i] == contents[i]);
                }
            }
            if rest.contains(x) {
                let i = choose|i: int|
                    0 <= i < ps.len() && #[trigger] ps[i] == x && contains_seq(lowercase(cs[i]), lowercase(s));
                assert(paths[i] == x && contents[i] == cs[i]);
            }
            if kept && x == paths.last() {
                assert(paths[paths.len() - 1] == x);
            }
        }
    }
}

} // verus!
