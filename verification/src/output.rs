//! Console colour tags: `<<red>>text</red>>` and the like become ANSI colour
//! sequences.
use vstd::prelude::*;
use crate::pattern::{regex_compiles, regex_replace_all, CompiledPattern};
use crate::text::concat_str;

verus! {

/// The regular expression that finds a span tagged with `name`.
pub open spec fn tag_pattern(name: Seq<char>) -> Seq<char> {
    "<<"@ + name + ">>(.*?)</"@ + name + ">>"@
}

/// What a span tagged with a colour becomes: the colour's code, the span's
/// text, and the reset code.
pub open spec fn tag_replacement(code: Seq<char>) -> Seq<char> {
    code + "$1"@ + "\x1b[0m"@
}

/// The colour names, in the order they are applied, with their codes.
pub open spec fn colour_tags() -> Seq<(Seq<char>, Seq<char>)> {
    seq![
        ("red"@, "\x1b[31m"@),
        ("green"@, "\x1b[32m"@),
        ("yellow"@, "\x1b[33m"@),
        ("grey"@, "\x1b[90m"@),
    ]
}

/// The regular expressions of the first `n` colours all compile.
pub open spec fn tags_compile(n: int) -> bool {
    forall|i: int| 0 <= i < n ==> regex_compiles(tag_pattern(#[trigger] colour_tags()[i].0))
}

/// `text` after the first `n` colours' tags were replaced, in order.
pub open spec fn colourised(text: Seq<char>, n: int) -> Seq<char>
    decreases n,
{
    if n <= 0 {
        text
    } else {
        let (name, code) = colour_tags()[n - 1];
        regex_replace_all(tag_pattern(name), colourised(text, n - 1), tag_replacement(code))
    }
}

/// The text with all four colour tags replaced by their ANSI sequences;
/// `None` exactly when the regex crate refuses one of the tag expressions.
pub fn colourise(text: &str) -> (res: Option<String>)
    ensures
        res is Some <==> tags_compile(4),
        res matches Some(r) ==> r@ == colourised(text@, 4),
{
    let names: [&str; 4] = ["red", "green", "yellow", "grey"];
    let codes: [&str; 4] = ["\x1b[31m", "\x1b[32m", "\x1b[33m", "\x1b[90m"];
    assert(names@[0]@ == colour_tags()[0].0 && codes@[0]@ == colour_tags()[0].1);
    assert(names@[1]@ == colour_tags()[1].0 && codes@[1]@ == colour_tags()[1].1);
    assert(names@[2]@ == colour_tags()[2].0 && codes@[2]@ == colour_tags()[2].1);
    assert(names@[3]@ == colour_tags()[3].0 && codes@[3]@ == colour_tags()[3].1);
    let mut result = String::from_str(text);
    let mut i: usize = 0;
    while i < 4
        invariant
            i <= 4,
            forall|j: int| 0 <= j < 4 ==> names@[j]@ == colour_tags()[j].0,
            forall|j: int| 0 <= j < 4 ==> codes@[j]@ == colour_tags()[j].1,
            tags_compile(i as int),
            result@ == colourised(text@, i as int),
        decreases 4 - i,
    {
        let name = names[i];
        let code = codes[i];
        let pattern = concat_str(&concat_str(&concat_str(&concat_str("<<", name), ">>(.*?)</"), name), ">>");
        let replacement = concat_str(&concat_str(code, "$1"), "\x1b[0m");
        match CompiledPattern::compile(&pattern) {
            Some(compiled) => {
                result = compiled.replace_all(&result, &replacement);
            },
            None => {
                assert(!regex_compiles(tag_pattern(colour_tags()[i as int].0)));
                return None;
            },
        }
        i = i + 1;
    }
    Some(result)
}

/// A tagged span may hold any text, none at all included: each colour's
/// expression is its opening tag `<<name>>`, then one group that repeats any
/// character lazily zero or more times (`.*?`, so an empty span such as
/// `<<green>></green>>` is found too, where `.+?` would miss it), then its
/// closing tag `</name>>`; and the span becomes the colour's code, the
/// group's text and the reset code.
pub proof fn law_tag_spans_may_be_empty(name: Seq<char>, code: Seq<char>)
    ensures
        tag_pattern(name) == "<<"@ + name + ">>"@ + seq!['(', '.', '*', '?', ')'] + "</"@ + name + ">>"@,
        tag_replacement(code) == code + seq!['$', '1'] + seq!['\x1b', '[', '0', 'm'],
{
    reveal_strlit("<<");
    reveal_strlit(">>(.*?)</");
    reveal_strlit(">>");
    reveal_strlit("</");
    reveal_strlit("$1");
    reveal_strlit("\x1b[0m");
    assert(tag_pattern(name) =~= "<<"@ + name + ">>"@ + seq!['(', '.', '*', '?', ')'] + "</"@ + name + ">>"@);
    assert(tag_replacement(code) =~= code + seq!['$', '1'] + seq!['\x1b', '[', '0', 'm']);
}

} // verus!
