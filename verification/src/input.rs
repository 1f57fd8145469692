//! Command-line arguments of the form `key=value`.
use vstd::prelude::*;
use crate::text::{chars_of, ends_with_seq, ends_with_str, equal_str, string_of};

verus! {

/// `arg` split at its first `=` into key and value (what `splitn(2, '=')`
/// gives when it yields two parts); `None` when `arg` holds no `=`.
pub open spec fn key_value_split(arg: Seq<char>) -> Option<(Seq<char>, Seq<char>)>
    decreases arg.len(),
{
    if arg.len() == 0 {
        None
    } else if arg[0] == '=' {
        Some((Seq::<char>::empty(), arg.drop_first()))
    } else {
        match key_value_split(arg.drop_first()) {
            Some((k, v)) => Some((seq![arg[0]] + k, v)),
            None => None,
        }
    }
}

/// The map that the well-formed arguments give, inserted in order, so that a
/// later argument overrides an earlier one with the same key.
pub open spec fn arguments_map(args: Seq<Seq<char>>) -> Map<Seq<char>, Seq<char>>
    decreases args.len(),
{
    if args.len() == 0 {
        Map::empty()
    } else {
        let m = arguments_map(args.drop_last());
        match key_value_split(args.last()) {
            Some((k, v)) => m.insert(k, v),
            None => m,
        }
    }
}

/// The arguments that hold no `=`, in order.
pub open spec fn malformed_arguments(args: Seq<Seq<char>>) -> Seq<Seq<char>>
    decreases args.len(),
{
    if args.len() == 0 {
        Seq::empty()
    } else {
        let rest = malformed_arguments(args.drop_last());
        if key_value_split(args.last()) is None {
            rest.push(args.last())
        } else {
            rest
        }
    }
}

/// The map of a sequence of key/value pairs inserted in order.
pub open spec fn pairs_map(pairs: Seq<(String, String)>) -> Map<Seq<char>, Seq<char>>
    decreases pairs.len(),
{
    if pairs.len() == 0 {
        Map::empty()
    } else {
        pairs_map(pairs.drop_last()).insert(pairs.last().0@, pairs.last().1@)
    }
}

/// The parsed command line: its `key=value` pairs in the order given, and the
/// arguments that were not of that form (each of which deserves a warning).
pub struct ParsedArgs {
    entries: Vec<(String, String)>,
    malformed: Vec<String>,
}

impl View for ParsedArgs {
    type V = Map<Seq<char>, Seq<char>>;

    closed spec fn view(&self) -> Map<Seq<char>, Seq<char>> {
        pairs_map(self.entries@)
    }
}

proof fn lemma_split_at_first(arg: Seq<char>, i: int)
    requires
        0 <= i < arg.len(),
        arg[i] == '=',
        forall|j: int| 0 <= j < i ==> arg[j] != '=',
    ensures
        key_value_split(arg) == Some((arg.take(i), arg.skip(i + 1))),
    decreases i,
{
    if i > 0 {
        lemma_split_at_first(arg.drop_first(), i - 1);
        assert(seq![arg[0]] + arg.drop_first().take(i - 1) == arg.take(i));
        assert(arg.drop_first().skip(i) == arg.skip(i + 1));
    } else {
        assert(arg.take(0) == Seq::<char>::empty());
        assert(arg.drop_first() == arg.skip(1));
    }
}

proof fn lemma_split_none(arg: Seq<char>)
    requires
        forall|j: int| 0 <= j < arg.len() ==> arg[j] != '=',
    ensures
        key_value_split(arg) is None,
    decreases arg.len(),
{
    if arg.len() > 0 {
        lemma_split_none(arg.drop_first());
    }
}

/// `arg` split at its first `=`; `None` when it holds none.
pub fn split_argument(arg: &str) -> (res: Option<(String, String)>)
    ensures
        match res {
            Some((k, v)) => key_value_split(arg@) == Some((k@, v@)),
            None => key_value_split(arg@) is None,
        },
{
    let chars = chars_of(arg);
    let mut i: usize = 0;
    while i < chars.len()
        invariant
            i <= chars.len(),
            chars@ == arg@,
            forall|j: int| 0 <= j < i ==> chars@[j] != '=',
        decreases chars.len() - i,
    {
        if chars[i] == '=' {
            proof {
                lemma_split_at_first(arg@, i as int);
            }
            let mut key: Vec<char> = Vec::new();
            let mut j: usize = 0;
            while j < i
                invariant
                    j <= i < chars.len(),
                    key@ == chars@.take(j as int),
                decreases i - j,
            {
                key.push(chars[j]);
                j = j + 1;
                assert(key@ == chars@.take(j as int));
            }
            let mut value: Vec<char> = Vec::new();
            let mut j: usize = i + 1;
            while j < chars.len()
                invariant
                    i + 1 <= j <= chars.len(),
                    value@ == chars@.subrange(i + 1, j as int),
                decreases chars.len() - j,
            {
                value.push(chars[j]);
                j = j + 1;
                assert(value@ == chars@.subrange(i + 1, j as int));
            }
            assert(chars@.subrange(i + 1, chars.len() as int) == chars@.skip(i + 1));
            return Some((string_of(&key), string_of(&value)));
        }
        i = i + 1;
    }
    proof {
        lemma_split_none(arg@);
    }
    None
}

/// Parses `key=value` arguments. Every argument holding an `=` is split at
/// its first `=` and inserted, a later key overriding an earlier one; every
/// other argument is kept, in order, as malformed.
pub fn parseArguments(args: Vec<String>) -> (parsed: ParsedArgs)
    ensures
        parsed@ == arguments_map(args.deep_view()),
        parsed.malformed_view() == malformed_arguments(args.deep_view()),
{
    let mut entries: Vec<(String, String)> = Vec::new();
    let mut malformed: Vec<String> = Vec::new();
    let mut i: usize = 0;
    while i < args.len()
        invariant
            i <= args.len(),
            pairs_map(entries@) == arguments_map(args.deep_view().take(i as int)),
            malformed.deep_view() == malformed_arguments(args.deep_view().take(i as int)),
        decreases args.len() - i,
    {
        let ghost before = args.deep_view().take(i as int);
        let ghost now = args.deep_view().take(i + 1);
        assert(now.drop_last() == before);
        assert(now.last() == args[i as int]@);
        let ghost old_entries = entries@;
        match split_argument(args[i].as_str()) {
            Some(kv) => {
                entries.push(kv);
                assert(entries@.drop_last() == old_entries);
                assert(pairs_map(entries@) == pairs_map(old_entries).insert(kv.0@, kv.1@));
            },
            None => {
                malformed.push(args[i].clone());
                assert(malformed.deep_view() == malformed_arguments(now));
            },
        }
        i = i + 1;
    }
    assert(args.deep_view().take(args.len() as int) == args.deep_view());
    ParsedArgs { entries, malformed }
}

proof fn lemma_pairs_map_suffix_free(pairs: Seq<(String, String)>, i: int, key: Seq<char>)
    requires
        0 <= i <= pairs.len(),
        forall|j: int| i <= j < pairs.len() ==> pairs[j].0@ != key,
    ensures
        pairs_map(pairs).contains_key(key) == pairs_map(pairs.take(i)).contains_key(key),
        pairs_map(pairs).contains_key(key) ==> pairs_map(pairs)[key] == pairs_map(
            pairs.take(i),
        )[key],
    decreases pairs.len() - i,
{
    if i < pairs.len() {
        lemma_pairs_map_suffix_free(pairs.drop_last(), i, key);
        assert(pairs.drop_last().take(i) == pairs.take(i));
    } else {
        assert(pairs.take(i) == pairs);
    }
}

/// The value the parsed arguments give a key is that of the last argument
/// that sets the key: a later `key=value` overrides every earlier one.
pub proof fn law_last_setting_wins(args: Seq<Seq<char>>, i: int, key: Seq<char>, value: Seq<char>)
    requires
        0 <= i < args.len(),
        key_value_split(args[i]) == Some((key, value)),
        forall|j: int|
            i < j < args.len() ==> !(#[trigger] key_value_split(args[j]) matches Some((k, _)) && k
                == key),
    ensures
        arguments_map(args).contains_key(key),
        arguments_map(args)[key] == value,
    decreases args.len(),
{
    if i < args.len() - 1 {
        law_last_setting_wins(args.drop_last(), i, key, value);
        assert(key_value_split(args[args.len() - 1]) == key_value_split(args.last()));
    }
}

/// A key that no argument sets has no value, whatever else was given.
pub proof fn law_unset_key_absent(args: Seq<Seq<char>>, key: Seq<char>)
    requires
        forall|j: int|
            0 <= j < args.len() ==> !(#[trigger] key_value_split(args[j]) matches Some((k, _))
                && k == key),
    ensures
        !arguments_map(args).contains_key(key),
    decreases args.len(),
{
    if args.len() > 0 {
        assert(key_value_split(args[args.len() - 1]) == key_value_split(args.last()));
        law_unset_key_absent(args.drop_last(), key);
    }
}

/// An argument holding an `=` is never reported as malformed, and one
/// without is: the malformed arguments are exactly those without `=`.
pub proof fn law_malformed_exactly_without_separator(args: Seq<Seq<char>>)
    ensures
        malformed_arguments(args) == args.filter(|a: Seq<char>| key_value_split(a) is None),
    decreases args.len(),
{
    reveal_with_fuel(Seq::filter, 1);
    if args.len() > 0 {
        law_malformed_exactly_without_separator(args.drop_last());
    }
}

impl ParsedArgs {
    /// The malformed arguments, in order.
    pub closed spec fn malformed_view(&self) -> Seq<Seq<char>> {
        self.malformed.deep_view()
    }

    /// The value given for `key`, the last one where several were given.
    pub fn get(&self, key: &str) -> (res: Option<&String>)
        ensures
            match res {
                Some(v) => self@.contains_key(key@) && self@[key@] == v@,
                None => !self@.contains_key(key@),
            },
    {
        let mut i: usize = self.entries.len();
        while i > 0
            invariant
                i <= self.entries.len(),
                forall|j: int| i <= j < self.entries.len() ==> self.entries@[j].0@ != key@,
            decreases i,
        {
            if equal_str(self.entries[i - 1].0.as_str(), key) {
                proof {
                    lemma_pairs_map_suffix_free(self.entries@, i as int, key@);
                    assert(self.entries@.take(i as int).drop_last() == self.entries@.take(
                        i - 1,
                    ));
                }
                return Some(&self.entries[i - 1].1);
            }
            i = i - 1;
        }
        proof {
            lemma_pairs_map_suffix_free(self.entries@, 0, key@);
            assert(self.entries@.take(0).len() == 0);
        }
        None
    }

    /// Whether some argument gave `key`.
    pub fn contains_key(&self, key: &str) -> (b: bool)
        ensures
            b == self@.contains_key(key@),
    {
        self.get(key).is_some()
    }

    /// The arguments that were not of the form `key=value`, in order.
    pub fn malformed(&self) -> (m: &Vec<String>)
        ensures
            m.deep_view() == self.malformed_view(),
    {
        &self.malformed
    }
}

/// What the program is asked to do.
#[derive(Debug, Clone, Copy, PartialEq, Eq, Structural)]
pub enum RunMode {
    /// List the dumps that hold a text (`lfm`, `lookformatch`).
    LookForMatch,
    /// Generate one dump and its dependencies (`t`, `targeted`).
    GenerateTarget,
    /// Generate the dumps of a directory and their dependencies (`td`,
    /// `targeteddir`).
    GenerateDirectory,
}

/// The mode a `mode` argument names; `None` for any other text.
pub open spec fn mode_named(mode: Seq<char>) -> Option<RunMode> {
    if mode == "lfm"@ || mode == "lookformatch"@ {
        Some(RunMode::LookForMatch)
    } else if mode == "targeted"@ || mode == "t"@ {
        Some(RunMode::GenerateTarget)
    } else if mode == "td"@ || mode == "targeteddir"@ {
        Some(RunMode::GenerateDirectory)
    } else {
        None
    }
}

/// The mode a `mode` argument names; `None` (nothing to do) for any other
/// text.
pub fn select_mode(mode: &str) -> (res: Option<RunMode>)
    ensures
        res == mode_named(mode@),
{
    if equal_str(mode, "lfm") || equal_str(mode, "lookformatch") {
        Some(RunMode::LookForMatch)
    } else if equal_str(mode, "targeted") || equal_str(mode, "t") {
        Some(RunMode::GenerateTarget)
    } else if equal_str(mode, "td") || equal_str(mode, "targeteddir") {
        Some(RunMode::GenerateDirectory)
    } else {
        None
    }
}

/// The arguments without those naming a Windows executable (ending in
/// `.exe`), in order.
pub open spec fn without_executables(args: Seq<Seq<char>>) -> Seq<Seq<char>> {
    args.filter(|a: Seq<char>| !ends_with_seq(a, ".exe"@))
}

/// The arguments without those ending in `.exe`, in order.
pub fn program_arguments(args: Vec<String>) -> (res: Vec<String>)
    ensures
        res.deep_view() == without_executables(args.deep_view()),
{
    let mut res: Vec<String> = Vec::new();
    let mut i: usize = 0;
    while i < args.len()
        invariant
            i <= args.len(),
            res.deep_view() == without_executables(args.deep_view().take(i as int)),
        decreases args.len() - i,
    {
        let ghost prefix = args.deep_view().take(i + 1);
        assert(prefix.drop_last() == args.deep_view().take(i as int));
        assert(prefix.last() == args[i as int]@);
        reveal_with_fuel(Seq::filter, 1);
        let ghost before = res.deep_view();
        if !ends_with_str(args[i].as_str(), ".exe") {
            res.push(args[i].clone());
            assert(res.deep_view() == before.push(args[i as int]@));
        }
        i = i + 1;
    }
    assert(args.deep_view().take(args.len() as int) == args.deep_view());
    res
}

/// The configuration file: the `config` argument, or `config.json`.
pub fn config_path(parsed: &ParsedArgs) -> (path: String)
    ensures
        parsed@.contains_key("config"@) ==> path@ == parsed@["config"@],
        !parsed@.contains_key("config"@) ==> path@ == "config.json"@,
{
    match parsed.get("config") {
        Some(p) => p.clone(),
        None => String::from_str("config.json"),
    }
}

/// Whether output is kept short: a `silent` argument was given, whatever its
/// value (`silent=false` too).
pub fn is_silent(parsed: &ParsedArgs) -> (b: bool)
    ensures
        b == parsed@.contains_key("silent"@),
{
    parsed.contains_key("silent")
}

} // verus!
