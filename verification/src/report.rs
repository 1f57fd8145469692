//! The texts reported while generating and searching, with their colour tags.
use vstd::prelude::*;
use crate::text::{contains_seq, decimal, decimal_string, join_seq, join_str, occurs_at};

verus! {

/// The decimal text of a count.
fn count_string(n: usize) -> (res: String)
    ensures
        res@ == decimal(n as nat),
{
    decimal_string(n as u64)
}

/// The summary once every dump was read.
pub open spec fn walk_summary_text(highest: u32, count: nat) -> Seq<char> {
    "Finished with highest iteration <<green>>"@ + decimal(highest as nat) + "</green>> and <<green>>"@
        + decimal(count) + "</green>> file"@ + (if count == 1 { ""@ } else { "s"@ }) + "."@
}

/// The summary once every dump was read: the depth kept and how many dumps,
/// with "file" in the plural unless there is exactly one.
pub fn walk_summary(highest: u32, count: usize) -> (res: String)
    ensures
        res@ == walk_summary_text(highest, count as nat),
{
    let mut r = String::from_str("Finished with highest iteration <<green>>");
    r.append(decimal_string(highest as u64).as_str());
    r.append("</green>> and <<green>>");
    r.append(count_string(count).as_str());
    r.append("</green>> file");
    if count == 1 {
        r.append("");
    } else {
        r.append("s");
    }
    r.append(".");
    r
}

/// The line that opens a round.
pub open spec fn round_start_text(iteration: u32, count: nat) -> Seq<char> {
    "Starting iteration "@ + decimal(iteration as nat) + " with "@ + decimal(count) + " files. <<grey>>("@
        + decimal(iteration as nat) + " to go)</grey>>"@
}

/// The line that opens the round at depth `iteration` over `count` dumps.
pub fn round_start(iteration: u32, count: usize) -> (res: String)
    ensures
        res@ == round_start_text(iteration, count as nat),
{
    let it = decimal_string(iteration as u64);
    let mut r = String::from_str("Starting iteration ");
    r.append(it.as_str());
    r.append(" with ");
    r.append(count_string(count).as_str());
    r.append(" files. <<grey>>(");
    r.append(it.as_str());
    r.append(" to go)</grey>>");
    r
}

/// The line that lists the asset classes of a round.
pub open spec fn found_types_text(types: Seq<Seq<char>>) -> Seq<char> {
    "<<grey>>Found Types</grey>>: "@ + join_seq(types, ", "@)
}

/// The line that lists the asset classes of a round, in generation order.
pub fn found_types(types: &Vec<String>) -> (res: String)
    ensures
        res@ == found_types_text(types.deep_view()),
{
    let mut r = String::from_str("<<grey>>Found Types</grey>>: ");
    r.append(join_str(types, ", ").as_str());
    r
}

/// The line after the assets of one class were generated.
pub open spec fn class_done_text(iteration: u32, asset_type: Seq<char>, index: nat, count: nat) -> Seq<char> {
    "<<grey>>Finished with iteration "@ + decimal(iteration as nat) + " with AssetType</grey>> "@ + asset_type
        + " <<grey>>("@ + decimal(index + 1) + "/"@ + decimal(count) + ")</grey>>"@
}

/// The line after the assets of the `index`-th class (counted from zero) of
/// `count` were generated.
pub fn class_done(iteration: u32, asset_type: &str, index: usize, count: usize) -> (res: String)
    requires
        index < usize::MAX,
    ensures
        res@ == class_done_text(iteration, asset_type@, index as nat, count as nat),
{
    let mut r = String::from_str("<<grey>>Finished with iteration ");
    r.append(decimal_string(iteration as u64).as_str());
    r.append(" with AssetType</grey>> ");
    r.append(asset_type);
    r.append(" <<grey>>(");
    r.append(count_string(index + 1).as_str());
    r.append("/");
    r.append(count_string(count).as_str());
    r.append(")</grey>>");
    r
}

/// The closing report on the assets that were not generated.
pub open spec fn failure_report_text(fails: Seq<Seq<char>>) -> Seq<char> {
    if fails.len() == 0 {
        "<<green>>No Fails.</green>>"@
    } else {
        "<<red>>Failed files</red>>:\n"@ + join_seq(fails, "\n"@)
    }
}

/// The closing report: that nothing failed, or the failed asset paths, one
/// per line.
pub fn failure_report(fails: &Vec<String>) -> (res: String)
    ensures
        res@ == failure_report_text(fails.deep_view()),
{
    if fails.len() == 0 {
        String::from_str("<<green>>No Fails.</green>>")
    } else {
        let mut r = String::from_str("<<red>>Failed files</red>>:\n");
        r.append(join_str(fails, "\n").as_str());
        r
    }
}

/// The report of a search.
pub open spec fn match_report_text(matches: Seq<Seq<char>>) -> Seq<char> {
    "\nFound matches in the following files:\n<<green>>"@ + join_seq(matches, "\n"@) + "</green>>"@
}

/// The report of a search: the matching files, one per line.
pub fn match_report(matches: &Vec<String>) -> (res: String)
    ensures
        res@ == match_report_text(matches.deep_view()),
{
    let mut r = String::from_str("\nFound matches in the following files:\n<<green>>");
    r.append(join_str(matches, "\n").as_str());
    r.append("</green>>");
    r
}

/// The line once the dumps to search are listed.
pub open spec fn file_list_text(count: nat) -> Seq<char> {
    "Got full file list (<<green>>"@ + decimal(count) + " files</green>>)"@
}

/// The line once the `count` dumps to search are listed.
pub fn file_list(count: usize) -> (res: String)
    ensures
        res@ == file_list_text(count as nat),
{
    let mut r = String::from_str("Got full file list (<<green>>");
    r.append(count_string(count).as_str());
    r.append(" files</green>>)");
    r
}

/// The progress line while a dump is searched.
pub open spec fn checking_file_text(name: Seq<char>, index: nat, count: nat) -> Seq<char> {
    "Checking file <<grey>>"@ + name + "</grey>> (<<green>>"@ + decimal(index + 1) + "/"@ + decimal(count)
        + "</green>>)"@
}

/// The progress line while the `index`-th dump (counted from zero) of `count`
/// is searched.
pub fn checking_file(name: &str, index: usize, count: usize) -> (res: String)
    requires
        index < usize::MAX,
    ensures
        res@ == checking_file_text(name@, index as nat, count as nat),
{
    let mut r = String::from_str("Checking file <<grey>>");
    r.append(name);
    r.append("</grey>> (<<green>>");
    r.append(count_string(index + 1).as_str());
    r.append("/");
    r.append(count_string(count).as_str());
    r.append("</green>>)");
    r
}

proof fn lemma_join_holds_parts(parts: Seq<Seq<char>>, sep: Seq<char>, i: int)
    requires
        0 <= i < parts.len(),
    ensures
        exists|o: int| #[trigger] occurs_at(join_seq(parts, sep), parts[i], o),
    decreases parts.len(),
{
    let j = join_seq(parts, sep);
    if parts.len() == 1 {
        assert(j == parts[0]);
        assert(j.subrange(0, parts[0].len() as int) =~= parts[0]);
        assert(occurs_at(j, parts[i], 0));
    } else {
        let front = join_seq(parts.drop_last(), sep);
        assert(j == front + sep + parts.last());
        if i == parts.len() - 1 {
            let o = (front.len() + sep.len()) as int;
            assert(j.subrange(o, o + parts[i].len()) =~= parts[i]);
            assert(occurs_at(j, parts[i], o));
        } else {
            lemma_join_holds_parts(parts.drop_last(), sep, i);
            assert(parts.drop_last()[i] == parts[i]);
            let o = choose|o: int| #[trigger] occurs_at(front, parts[i], o);
            assert(j.subrange(o, o + parts[i].len()) =~= front.subrange(o, o + parts[i].len()));
            assert(occurs_at(j, parts[i], o));
        }
    }
}

/// The closing report says that nothing failed exactly when nothing failed,
/// and otherwise names every failed asset path.
pub proof fn law_failure_report_names_every_failure(fails: Seq<Seq<char>>)
    ensures
        failure_report_text(fails) == "<<green>>No Fails.</green>>"@ <==> fails.len() == 0,
        forall|i: int| 0 <= i < fails.len() ==> contains_seq(failure_report_text(fails), #[trigger] fails[i]),
{
    reveal_strlit("<<green>>No Fails.</green>>");
    reveal_strlit("<<red>>Failed files</red>>:\n");
    if fails.len() > 0 {
        let head = "<<red>>Failed files</red>>:\n"@;
        let j = join_seq(fails, "\n"@);
        let t = failure_report_text(fails);
        assert(t == head + j);
        assert(t[2] == 'r');
        assert("<<green>>No Fails.</green>>"@[2] == 'g');
        assert forall|i: int| 0 <= i < fails.len() implies contains_seq(t, #[trigger] fails[i]) by {
            lemma_join_holds_parts(fails, "\n"@, i);
            let o = choose|o: int| #[trigger] occurs_at(j, fails[i], o);
            let p = head.len() as int + o;
            assert(t.subrange(p, p + fails[i].len()) =~= j.subrange(o, o + fails[i].len()));
            assert(occurs_at(t, fails[i], p));
        }
    }
}

} // verus!
