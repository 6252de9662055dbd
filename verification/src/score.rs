//! Normalisation of the text that the command palette matches against.
use vstd::prelude::*;

use crate::embed::{contains, contains_text};
use crate::markup::{regex_accepts, regex_replaced, replace_matches};
use crate::shortcuts::{lowercase, to_lower};

verus! {

/// The pattern of a separator: any white space or a hyphen.
pub open spec fn separator_pattern() -> Seq<char> {
    "[\\s-]"@
}

/// Lower-cases `string` and turns every separator into a single space.
pub fn format_input(string: &str) -> (r: String)
    ensures
        r@ == regex_replaced(separator_pattern(), lowercase(string@), " "@),
{
    let lower = to_lower(string);
    match replace_matches("[\\s-]", lower.as_str(), " ") {
        Some(v) => v,
        None => {
            proof {
                assert(false);
            }
            String::new()
        },
    }
}

/// How a command list entry, with its keywords, matches a search.
#[derive(Clone, Copy, Debug, PartialEq, Eq, Structural)]
pub enum CommandMatch {
    /// There is no search: every entry matches.
    EmptySearch,
    /// The lower-cased value holds the lower-cased search.
    InValue,
    /// A lower-cased keyword holds the lower-cased search.
    InKeyword,
    /// No match.
    NoMatch,
}

/// Some keyword of `keywords` holds `q` once lower-cased.
pub open spec fn keyword_holds(keywords: Seq<String>, q: Seq<char>) -> bool {
    exists|i: int| 0 <= i < keywords.len() && contains(lowercase(#[trigger] keywords[i]@), q)
}

/// How `value`, with its `keywords`, matches `search`: an empty search
/// matches all; else the value, then the keywords, are searched without
/// regard to case.
pub fn command_match(value: &str, search: &str, keywords: &Vec<String>) -> (r: CommandMatch)
    ensures
        r == (if search@.len() == 0 {
            CommandMatch::EmptySearch
        } else if contains(lowercase(value@), lowercase(search@)) {
            CommandMatch::InValue
        } else if keyword_holds(keywords@, lowercase(search@)) {
            CommandMatch::InKeyword
        } else {
            CommandMatch::NoMatch
        }),
{
    if search.unicode_len() == 0 {
        return CommandMatch::EmptySearch;
    }
    let value_lower = to_lower(value);
    let search_lower = to_lower(search);
    if contains_text(value_lower.as_str(), search_lower.as_str()) {
        return CommandMatch::InValue;
    }
    let mut i: usize = 0;
    while i < keywords.len()
        invariant
            i <= keywords@.len(),
            search@.len() > 0,
            !contains(lowercase(value@), lowercase(search@)),
            search_lower@ == lowercase(search@),
            forall|j: int| 0 <= j < i ==> !contains(lowercase(#[trigger] keywords@[j]@), search_lower@),
        decreases keywords@.len() - i,
    {
        let k = to_lower(keywords[i].as_str());
        if contains_text(k.as_str(), search_lower.as_str()) {
            proof {
                assert(contains(lowercase(keywords@[i as int]@), search_lower@));
            }
            return CommandMatch::InKeyword;
        }
        i = i + 1;
    }
    CommandMatch::NoMatch
}

} // verus!
