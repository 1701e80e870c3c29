//! Whole-string wildcard matching, as performed by the `wildmatch` crate.

use vstd::prelude::*;
use wildmatch::WildMatch;

verus! {

/// The wildcard that stands for any run of characters, the empty one included.
pub const MULTI_WILDCARD: char = '*';

/// The wildcard that stands for exactly one character.
pub const SINGLE_WILDCARD: char = '?';

/// Whether `pattern` matches the whole of `text`.
///
/// `*` stands for any run of characters, `?` for any single character, and
/// every other character for itself, with case observed. There is no escape
/// character.
pub open spec fn wildcard_matches(pattern: Seq<char>, text: Seq<char>) -> bool
    decreases pattern.len(), text.len(),
{
    if pattern.len() == 0 {
        text.len() == 0
    } else if pattern[0] == MULTI_WILDCARD {
        ||| wildcard_matches(pattern.drop_first(), text)
        ||| (text.len() > 0 && wildcard_matches(pattern, text.drop_first()))
    } else {
        &&& text.len() > 0
        &&& (pattern[0] == SINGLE_WILDCARD || pattern[0] == text[0])
        &&& wildcard_matches(pattern.drop_first(), text.drop_first())
    }
}

/// Matches `text` against `pattern` with `wildmatch::WildMatch::new` followed
/// by `WildMatch::matches`.
///
/// Trusted: the contract restates the crate's documented behaviour, namely that
/// the pattern must cover the entire input, with `*` for any number of
/// characters, `?` for exactly one, no escapes, and case-sensitive comparison.
#[verifier::external_body]
pub(crate) fn wild_match(pattern: &str, text: &str) -> (matched: bool)
    ensures
        matched == wildcard_matches(pattern@, text@),
{
    WildMatch::new(pattern).matches(text)
}

/// Whether `text` holds no multi-character wildcard.
pub open spec fn has_no_multi_wildcard(text: Seq<char>) -> bool {
    forall|i: int| 0 <= i < text.len() ==> text[i] != MULTI_WILDCARD
}

/// Whether `text` holds no wildcard of either sort.
pub open spec fn is_plain(text: Seq<char>) -> bool {
    forall|i: int|
        0 <= i < text.len() ==> text[i] != MULTI_WILDCARD && text[i] != SINGLE_WILDCARD
}

/// A pattern without wildcards matches its own text and no other.
pub proof fn law_plain_pattern_is_exact(pattern: Seq<char>, text: Seq<char>)
    requires
        is_plain(pattern),
    ensures
        wildcard_matches(pattern, text) <==> pattern == text,
    decreases pattern.len(),
{
    if pattern.len() == 0 {
        assert(text.len() == 0 ==> pattern =~= text);
    } else if text.len() > 0 {
        let pattern_rest = pattern.drop_first();
        let text_rest = text.drop_first();
        assert forall|i: int| 0 <= i < pattern_rest.len() implies pattern_rest[i] != MULTI_WILDCARD
            && pattern_rest[i] != SINGLE_WILDCARD by {
            assert(pattern_rest[i] == pattern[i + 1]);
        }
        law_plain_pattern_is_exact(pattern_rest, text_rest);
        if pattern[0] == text[0] && pattern_rest == text_rest {
            assert(pattern =~= seq![pattern[0]] + pattern_rest);
            assert(text =~= seq![text[0]] + text_rest);
        }
    }
}

/// A text without `*` matches itself when read as a pattern.
pub proof fn law_pattern_matches_itself(text: Seq<char>)
    requires
        has_no_multi_wildcard(text),
    ensures
        wildcard_matches(text, text),
    decreases text.len(),
{
    if text.len() > 0 {
        let rest = text.drop_first();
        assert forall|i: int| 0 <= i < rest.len() implies rest[i] != MULTI_WILDCARD by {
            assert(rest[i] == text[i + 1]);
        }
        law_pattern_matches_itself(rest);
    }
}

/// A leading `*` takes up any run of characters: where `rest` matches
/// `tail`, `*` followed by `rest` matches `head` followed by `tail`.
pub proof fn law_leading_wildcard_absorbs(rest: Seq<char>, head: Seq<char>, tail: Seq<char>)
    requires
        wildcard_matches(rest, tail),
    ensures
        wildcard_matches(seq![MULTI_WILDCARD] + rest, head + tail),
    decreases head.len(),
{
    let pattern = seq![MULTI_WILDCARD] + rest;
    let text = head + tail;
    assert(pattern[0] == MULTI_WILDCARD);
    if head.len() == 0 {
        assert(pattern.drop_first() =~= rest);
        assert(text =~= tail);
    } else {
        law_leading_wildcard_absorbs(rest, head.drop_first(), tail);
        assert(text.drop_first() =~= head.drop_first() + tail);
    }
}

/// The pattern `*` matches every text.
pub proof fn law_lone_wildcard_matches_all(text: Seq<char>)
    ensures
        wildcard_matches(seq![MULTI_WILDCARD], text),
{
    let none = Seq::<char>::empty();
    law_leading_wildcard_absorbs(none, text, none);
    assert(seq![MULTI_WILDCARD] + none =~= seq![MULTI_WILDCARD]);
    assert(text + none =~= text);
}

/// A pattern made of `*` and a suffix without `*` matches every text that
/// ends in that suffix.
pub proof fn law_suffix_pattern(suffix: Seq<char>, head: Seq<char>)
    requires
        has_no_multi_wildcard(suffix),
    ensures
        wildcard_matches(seq![MULTI_WILDCARD] + suffix, head + suffix),
{
    law_pattern_matches_itself(suffix);
    law_leading_wildcard_absorbs(suffix, head, suffix);
}

} // verus!
