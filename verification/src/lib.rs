//! A morphological analyzer for romanized Manchu.
//!
//! A sentence is split into whitespace-delimited tokens; each token is peeled
//! into a stem plus right-attached suffixes, an optional trailing case clitic
//! is detached, and all candidate analyses are arranged in a lattice.  A
//! Viterbi-style pass over the lattice picks the single minimum-cost analysis
//! under additive emission and edge costs.

pub mod edge_cost;
pub mod function_word;
pub mod json;
pub mod lattice;
pub mod phoneme;
pub mod split_clitic;
pub mod split_suffix;
pub mod splited_word;
pub mod text;
pub mod word;

use vstd::prelude::*;

use crate::split_suffix::{get_suffix_table, suffix_table_spec};
use crate::splited_word::{SplitedWord, SplitedWordV};
use crate::text::{ends_with, has_content, str_ends_with, str_has_content};
use crate::word::{MorphError, SuffixV};

verus! {

/// The first table surface that ends the token, searched from index `i`,
/// with no phonotactic filtering of the remaining base.
pub open spec fn simple_peel_from(t: Seq<SuffixV>, s: Seq<char>, i: int) -> Option<
    (Seq<char>, Seq<char>),
>
    decreases t.len() - i,
{
    if i < 0 || i >= t.len() {
        None
    } else if ends_with(s, t[i].suffix) {
        Some((s.subrange(0, s.len() - t[i].suffix.len()), t[i].suffix))
    } else {
        simple_peel_from(t, s, i + 1)
    }
}

/// What the plain splitter returns: the base and surface of the first
/// table suffix that ends the word, or the word itself untouched.
pub open spec fn simple_split_spec(s: Seq<char>) -> Result<SplitedWordV, MorphError> {
    if s.len() == 0 {
        Err(MorphError::EmptyInput)
    } else if !has_content(s) {
        Err(MorphError::WhitespaceOnly)
    } else {
        match simple_peel_from(suffix_table_spec(), s, 0) {
            Some((b, surface)) => Ok(SplitedWordV { base: b, suffix: Some(surface) }),
            None => Ok(SplitedWordV { base: s, suffix: None }),
        }
    }
}

/// Split a word into a suffix and its base.
///
/// The first suffix of the table whose surface ends the word is detached,
/// with no phonotactic check on what remains; a word no surface ends comes
/// back whole.  An empty or all-whitespace word is rejected.
pub fn split_word_into_suffix_base(word: &str) -> (r: Result<SplitedWord, MorphError>)
    ensures
        match r {
            Ok(w) => simple_split_spec(word@) == Ok::<SplitedWordV, MorphError>(w@),
            Err(e) => simple_split_spec(word@) == Err::<SplitedWordV, MorphError>(e),
        },
{
    if word.unicode_len() == 0 {
        return Err(MorphError::EmptyInput);
    }
    if !str_has_content(word) {
        return Err(MorphError::WhitespaceOnly);
    }
    let table = get_suffix_table();
    let ghost tspec = suffix_table_spec();
    let n = table.len();
    let mut i: usize = 0;
    while i < n
        invariant
            0 <= i <= n,
            n == tspec.len(),
            tspec == suffix_table_spec(),
            table.deep_view() == tspec,
            word@.len() > 0,
            has_content(word@),
            simple_peel_from(tspec, word@, 0) == simple_peel_from(tspec, word@, i as int),
        decreases n - i,
    {
        proof {
            assert(table.deep_view()[i as int] == table@[i as int]@);
        }
        let surface = table[i].suffix.as_str();
        if str_ends_with(word, surface) {
            let wl = word.unicode_len();
            let sl = surface.unicode_len();
            let base = word.substring_char(0, wl - sl);
            proof {
                assert(base@ =~= word@.subrange(0, word@.len() - tspec[i as int].suffix.len()));
                assert(simple_peel_from(tspec, word@, i as int) == Some(
                    (word@.subrange(0, word@.len() - tspec[i as int].suffix.len()),
                    tspec[i as int].suffix),
                ));
            }
            return Ok(
                SplitedWord::new(String::from_str(base), Some(String::from_str(surface))),
            );
        }
        i += 1;
    }
    Ok(SplitedWord::new(String::from_str(word), None))
}

} // verus!
