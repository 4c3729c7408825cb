//! Choosing proxies by regular expressions on their names.

use crate::error::SubscriptionError;
use crate::text;
use vstd::prelude::*;

verus! {

/// A compiled set of regular expressions.
#[verifier::external_type_specification]
#[verifier::external_body]
pub struct ExRegexSet(regex::RegexSet);

/// The regular expressions that a set was made of.
pub uninterp spec fn set_patterns(set: regex::RegexSet) -> Seq<Seq<char>>;

/// Whether regular expressions compile to a set. The size limit on what they compile to is
/// counted in bytes, so the answer rests on the width of a machine word too.
pub uninterp spec fn patterns_compile(patterns: Seq<Seq<char>>, word_bits: nat) -> bool;

/// Whether one of the regular expressions matches somewhere in a text.
pub uninterp spec fn patterns_match(patterns: Seq<Seq<char>>, text: Seq<char>) -> bool;

/// `regex::RegexSet::new`: a set of exactly these regular expressions, or an error where
/// they do not compile. Nothing is said of the error.
#[verifier::external_body]
fn compile_set(patterns: &[String]) -> (compiled: Result<regex::RegexSet, regex::Error>)
    ensures
        match compiled {
            Ok(set) => patterns_compile(text::texts(patterns@), usize::BITS as nat) && set_patterns(
                set,
            ) == text::texts(patterns@),
            Err(_) => !patterns_compile(text::texts(patterns@), usize::BITS as nat),
        },
{
    regex::RegexSet::new(patterns)
}

/// `regex::RegexSet::is_match`: whether some expression of the set matches in the text.
#[verifier::external_body]
fn set_matches(set: &regex::RegexSet, name: &str) -> (hit: bool)
    ensures
        hit == patterns_match(set_patterns(*set), name@),
{
    set.is_match(name)
}

/// Whether patterns can be used as a filter. None at all always can.
pub open spec fn usable(patterns: Seq<Seq<char>>) -> bool {
    patterns.len() == 0 || patterns_compile(patterns, usize::BITS as nat)
}

/// The filter that patterns make: none, where there are no patterns.
pub open spec fn filter_of(patterns: Seq<Seq<char>>) -> Option<Seq<Seq<char>>> {
    if patterns.len() == 0 {
        None
    } else {
        Some(patterns)
    }
}

/// The patterns of an optional set.
pub open spec fn optional_patterns(set: Option<&regex::RegexSet>) -> Option<Seq<Seq<char>>> {
    match set {
        Some(set) => Some(set_patterns(*set)),
        None => None,
    }
}

/// Compiles the patterns of a filter.
pub fn compile_patterns(patterns: &[String]) -> (compiled: Result<
    Option<regex::RegexSet>,
    SubscriptionError,
>)
    ensures
        match compiled {
            Ok(None) => text::texts(patterns@).len() == 0,
            Ok(Some(set)) => usable(text::texts(patterns@)) && filter_of(text::texts(patterns@))
                == Some(set_patterns(set)),
            Err(error) => !usable(text::texts(patterns@)) && error is Pattern,
        },
{
    if patterns.len() == 0 {
        return Ok(None);
    }
    match compile_set(patterns) {
        Ok(set) => Ok(Some(set)),
        Err(error) => Err(SubscriptionError::Pattern(error)),
    }
}

/// Whether a proxy is kept, by whether its name matches the patterns to keep and those to
/// drop, where there are such patterns. Those to drop have the last word.
pub open spec fn admitted(included: Option<bool>, excluded: Option<bool>) -> bool {
    included != Some(false) && excluded != Some(true)
}

/// Whether a proxy is kept, by whether its name matches the patterns to keep and those to
/// drop.
pub fn admits(included: Option<bool>, excluded: Option<bool>) -> (kept: bool)
    ensures
        kept == admitted(included, excluded),
{
    match included {
        Some(false) => return false,
        _ => {},
    }
    match excluded {
        Some(true) => false,
        _ => true,
    }
}

/// Whether a name matches a filter, where there is one.
pub open spec fn filter_hit(filter: Option<Seq<Seq<char>>>, name: Seq<char>) -> Option<bool> {
    match filter {
        Some(patterns) => Some(patterns_match(patterns, name)),
        None => None,
    }
}

/// Whether a proxy of a name is kept.
pub open spec fn passes(
    name: Seq<char>,
    includes: Option<Seq<Seq<char>>>,
    excludes: Option<Seq<Seq<char>>>,
) -> bool {
    admitted(filter_hit(includes, name), filter_hit(excludes, name))
}

/// Whether a proxy of a name is kept: it matches the patterns to keep, if there are any,
/// and not those to drop.
pub fn matches_filter(
    name: &str,
    includes: Option<&regex::RegexSet>,
    excludes: Option<&regex::RegexSet>,
) -> (kept: bool)
    ensures
        kept == passes(name@, optional_patterns(includes), optional_patterns(excludes)),
{
    let included: Option<bool> = match includes {
        Some(set) => Some(set_matches(set, name)),
        None => None,
    };
    let excluded: Option<bool> = match excludes {
        Some(set) => Some(set_matches(set, name)),
        None => None,
    };
    admits(included, excluded)
}

/// A proxy is kept exactly where its name matches the patterns to keep, if there are any,
/// and does not match the patterns to drop, if there are any.
pub proof fn filters_as_given(name: Seq<char>, includes: Seq<Seq<char>>, excludes: Seq<Seq<char>>)
    ensures
        passes(name, filter_of(includes), filter_of(excludes)) <==> {
            &&& includes.len() > 0 ==> patterns_match(includes, name)
            &&& excludes.len() > 0 ==> !patterns_match(excludes, name)
        },
{
}

} // verus!
