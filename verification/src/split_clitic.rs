//! Detaching a trailing case clitic from a token: the stem keeps its own
//! segmentation, and the clitic contributes one candidate word per case its
//! dictionary entry lists.

use vstd::prelude::*;

use crate::function_word::{
    all_cases_parse, clitic_case_words, details_all_cases, function_word_table_spec,
    get_function_word_list, FunctionWordV,
};
use crate::text::{ends_with, has_content, str_ends_with, str_has_content};
use crate::word::{MorphError, PartOfSpeech, Word, WordV};

verus! {

/// A clitic entry detaches from a token when the entry is a clitic with
/// well-formed case tags, its surface ends the token, and a non-empty stem
/// remains.
pub open spec fn clitic_matches(f: FunctionWordV, s: Seq<char>) -> bool {
    &&& f.part_of_speech == PartOfSpeech::Clitic
    &&& all_cases_parse(f.details)
    &&& ends_with(s, f.entry)
    &&& f.entry.len() < s.len()
}

/// The first matching clitic entry of the table, from index `i` on.
pub open spec fn first_clitic_from(t: Seq<FunctionWordV>, s: Seq<char>, i: int) -> Option<
    FunctionWordV,
>
    decreases t.len() - i,
{
    if i < 0 || i >= t.len() {
        None
    } else if clitic_matches(t[i], s) {
        Some(t[i])
    } else {
        first_clitic_from(t, s, i + 1)
    }
}

/// A found clitic entry indeed matches the token.
pub proof fn lemma_first_clitic_props(t: Seq<FunctionWordV>, s: Seq<char>, i: int)
    ensures
        match first_clitic_from(t, s, i) {
            Some(f) => clitic_matches(f, s),
            None => true,
        },
    decreases t.len() - i,
{
    if i < 0 || i >= t.len() {
    } else if clitic_matches(t[i], s) {
    } else {
        lemma_first_clitic_props(t, s, i + 1);
    }
}

/// What the clitic splitter returns on a token: the stem and one candidate
/// word per case of the first matching entry, or the error naming why no
/// split exists.
pub open spec fn clitic_split_spec(s: Seq<char>) -> Result<(Seq<char>, Seq<WordV>), MorphError> {
    if s.len() == 0 {
        Err(MorphError::EmptyInput)
    } else if !has_content(s) {
        Err(MorphError::WhitespaceOnly)
    } else {
        match first_clitic_from(function_word_table_spec(), s, 0) {
            Some(f) => Ok((s.subrange(0, s.len() - f.entry.len()), clitic_case_words(f))),
            None => Err(MorphError::NoCliticMatch),
        }
    }
}

/// Split a word into a stem and a trailing case clitic.
///
/// The stem is not itself segmented here; the returned words are the clitic
/// read in each of its cases.  A token that is empty, whitespace, or equal
/// to a clitic surface alone (no stem would remain) yields an error.
pub fn split_word_into_word_clitic(word: &str) -> (r: Result<(String, Vec<Word>), MorphError>)
    ensures
        match r {
            Ok(p) => clitic_split_spec(word@) == Ok::<(Seq<char>, Seq<WordV>), MorphError>(
                (p.0@, p.1.deep_view()),
            ),
            Err(e) => clitic_split_spec(word@) == Err::<(Seq<char>, Seq<WordV>), MorphError>(e),
        },
{
    if word.unicode_len() == 0 {
        return Err(MorphError::EmptyInput);
    }
    if !str_has_content(word) {
        return Err(MorphError::WhitespaceOnly);
    }
    let table = get_function_word_list();
    let ghost tspec = function_word_table_spec();
    let n = table.len();
    let mut i: usize = 0;
    while i < n
        invariant
            0 <= i <= n,
            n == tspec.len(),
            tspec == function_word_table_spec(),
            table.deep_view() == tspec,
            word@.len() > 0,
            has_content(word@),
            first_clitic_from(tspec, word@, 0) == first_clitic_from(tspec, word@, i as int),
        decreases n - i,
    {
        proof {
            assert(table.deep_view()[i as int] == table@[i as int]@);
        }
        let is_clitic = matches!(table[i].part_of_speech, PartOfSpeech::Clitic);
        if is_clitic && details_all_cases(&table[i].details) && str_ends_with(
            word,
            table[i].entry.as_str(),
        ) && table[i].entry.as_str().unicode_len() < word.unicode_len() {
            let wl = word.unicode_len();
            let el = table[i].entry.as_str().unicode_len();
            let base = word.substring_char(0, wl - el);
            let words = table[i].to_words();
            proof {
                assert(clitic_matches(tspec[i as int], word@));
                assert(first_clitic_from(tspec, word@, i as int) == Some(tspec[i as int]));
                assert(base@ =~= word@.subrange(0, word@.len() - tspec[i as int].entry.len()));
                assert(words.deep_view() == clitic_case_words(tspec[i as int]));
            }
            return Ok((String::from_str(base), words));
        }
        proof {
            assert(!clitic_matches(tspec[i as int], word@));
            assert(first_clitic_from(tspec, word@, i as int) == first_clitic_from(
                tspec,
                word@,
                i as int + 1,
            ));
        }
        i += 1;
    }
    Err(MorphError::NoCliticMatch)
}

} // verus!
