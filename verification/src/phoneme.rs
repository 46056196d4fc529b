//! Phonotactic validation of candidate stems.
//!
//! A romanized candidate is first converted to Manchu script, then decomposed
//! into grapheme clusters; the syllable rules are checked on the final one or
//! two clusters.  Manchu syllables have the shape (C)V(V)(C): a two-consonant
//! coda is never valid, and only nine consonants may close a word.

use vstd::prelude::*;

use crate::text::str_eq;
use crate::word::{dup_suffix, MorphError, Suffix, SuffixV, Word, WordV};

verus! {

/// Name for what the native-script conversion returns on a romanized text;
/// the result depends on the characters alone.
pub uninterp spec fn native_of(s: Seq<char>) -> Option<Seq<char>>;

/// Name for the grapheme clusters of a text; they depend on the characters
/// alone.
pub uninterp spec fn graphemes_of(s: Seq<char>) -> Seq<Seq<char>>;

/// A "t" grapheme followed by "s" without a closing apostrophe.  The
/// converter scans "ts'" as one consonant and reads past the end of its
/// input when the apostrophe is missing at the end of a word, so such texts
/// are never handed to it.
pub open spec fn has_bare_ts(gs: Seq<Seq<char>>) -> bool {
    exists|i: int|
        0 <= i && i + 1 < gs.len() && #[trigger] gs[i] == "t"@ && gs[i + 1] == "s"@ && (i + 2
            == gs.len() || gs[i + 2] != "'"@)
}

/// Relies on `unicode_segmentation::UnicodeSegmentation::graphemes` for
/// `str` (extended clusters): a pure decomposition of the text.
#[verifier::external_body]
fn grapheme_split_raw(s: &str) -> (r: Vec<String>)
    ensures
        r.deep_view() == graphemes_of(s@),
{
    unicode_segmentation::UnicodeSegmentation::graphemes(s, true).map(|g| g.to_string()).collect()
}

/// Relies on `manchu_converter::ManchuConverter::convert_to_manchu` for
/// `str`: each romanized grapheme is mapped to its Manchu codepoint and a
/// text with an unmapped grapheme is rejected.  The converter indexes past
/// its grapheme list on a bare word-final "ts", so those inputs are
/// excluded.
#[verifier::external_body]
fn convert_native(s: &str) -> (r: Option<String>)
    requires
        !has_bare_ts(graphemes_of(s@)),
    ensures
        r.deep_view() == native_of(s@),
{
    match manchu_converter::ManchuConverter::convert_to_manchu(s, &None) {
        Ok(m) => Some(m),
        Err(_) => None,
    }
}

/// The conversion as the rest of the library sees it: a text whose graphemes
/// the converter could not even scan (a bare "ts") counts as a failed
/// conversion.
pub open spec fn native_ok(s: Seq<char>) -> Option<Seq<char>> {
    if has_bare_ts(graphemes_of(s)) {
        None
    } else {
        native_of(s)
    }
}

fn bare_ts_scan(gs: &Vec<String>) -> (r: bool)
    ensures
        r == has_bare_ts(gs.deep_view()),
{
    let n = gs.len();
    if n < 2 {
        return false;
    }
    let mut i: usize = 0;
    while i < n - 1
        invariant
            0 <= i <= n,
            2 <= n,
            n == gs.deep_view().len(),
            n == gs@.len(),
            forall|j: int|
                0 <= j && j + 1 < i + 1 && j + 1 < n ==> !(#[trigger] gs.deep_view()[j] == "t"@
                    && gs.deep_view()[j + 1] == "s"@ && (j + 2 == n || gs.deep_view()[j + 2]
                    != "'"@)),
        decreases n - i,
    {
        proof {
            assert(gs.deep_view()[i as int] == gs@[i as int]@);
            assert(gs.deep_view()[i as int + 1] == gs@[i as int + 1]@);
        }
        if str_eq(gs[i].as_str(), "t") && str_eq(gs[i + 1].as_str(), "s") {
            if i + 2 == n {
                return true;
            }
            proof {
                assert(gs.deep_view()[i as int + 2] == gs@[i as int + 2]@);
            }
            if !str_eq(gs[i + 2].as_str(), "'") {
                return true;
            }
        }
        i += 1;
    }
    false
}

/// Convert a romanized text to Manchu script, or report that the converter
/// rejects it.
pub fn convert_checked(s: &str) -> (r: Option<String>)
    ensures
        r.deep_view() == native_ok(s@),
{
    let gs = grapheme_split_raw(s);
    if bare_ts_scan(&gs) {
        None
    } else {
        convert_native(s)
    }
}

/// The grapheme clusters of a text, as owned strings.
pub fn grapheme_split(s: &str) -> (r: Vec<String>)
    ensures
        r.deep_view() == graphemes_of(s@),
{
    grapheme_split_raw(s)
}

/// The six romanized vowel letters.
pub open spec fn vowel_letters() -> Seq<Seq<char>> {
    seq!["a"@, "e"@, "i"@, "o"@, "u"@, "v"@]
}

/// The romanized consonant letters and digraphs.
pub open spec fn consonant_letters() -> Seq<Seq<char>> {
    seq![
        "n"@,
        "ng"@,
        "b"@,
        "p"@,
        "s"@,
        "š"@,
        "x"@,
        "k"@,
        "g"@,
        "h"@,
        "l"@,
        "m"@,
        "t"@,
        "d"@,
        "r"@,
        "j"@,
        "y"@,
        "c"@,
        "f"@,
        "w"@,
        "ts'"@,
        "dz"@,
        "k'"@,
        "g'"@,
        "h'"@,
        "c'y"@,
    ]
}

/// The nine consonants admissible at the end of a word.
pub open spec fn final_consonant_letters() -> Seq<Seq<char>> {
    seq!["b"@, "t"@, "k"@, "m"@, "n"@, "ng"@, "l"@, "r"@, "s"@]
}

/// Membership of a native grapheme in the image of a romanized letter list.
pub open spec fn in_native_image(letters: Seq<Seq<char>>, g: Seq<char>) -> bool {
    exists|i: int| 0 <= i < letters.len() && native_ok(#[trigger] letters[i]) == Some(g)
}

pub open spec fn is_vowel_grapheme(g: Seq<char>) -> bool {
    in_native_image(vowel_letters(), g)
}

pub open spec fn is_consonant_grapheme(g: Seq<char>) -> bool {
    in_native_image(consonant_letters(), g)
}

pub open spec fn is_final_consonant_grapheme(g: Seq<char>) -> bool {
    in_native_image(final_consonant_letters(), g)
}

fn in_native_image_exec(letters: &Vec<&str>, g: &str) -> (r: bool)
    ensures
        r == in_native_image(letters.deep_view(), g@),
{
    let n = letters.len();
    let mut i: usize = 0;
    while i < n
        invariant
            0 <= i <= n,
            n == letters@.len(),
            n == letters.deep_view().len(),
            forall|j: int|
                0 <= j < i ==> native_ok(#[trigger] letters.deep_view()[j]) != Some(g@),
        decreases n - i,
    {
        proof {
            assert(letters.deep_view()[i as int] == letters@[i as int]@);
        }
        match convert_checked(letters[i]) {
            Some(m) => {
                if str_eq(m.as_str(), g) {
                    return true;
                }
            },
            None => {},
        }
        i += 1;
    }
    false
}

/// Whether a native grapheme is one of the six vowels.
pub fn is_vowel(g: &str) -> (r: bool)
    ensures
        r == is_vowel_grapheme(g@),
{
    let letters: Vec<&str> = vec!["a", "e", "i", "o", "u", "v"];
    proof {
        assert(letters.deep_view() =~= vowel_letters());
    }
    in_native_image_exec(&letters, g)
}

/// Whether a native grapheme is one of the consonants.
pub fn is_consonant(g: &str) -> (r: bool)
    ensures
        r == is_consonant_grapheme(g@),
{
    let letters: Vec<&str> = vec![
        "n",
        "ng",
        "b",
        "p",
        "s",
        "š",
        "x",
        "k",
        "g",
        "h",
        "l",
        "m",
        "t",
        "d",
        "r",
        "j",
        "y",
        "c",
        "f",
        "w",
        "ts'",
        "dz",
        "k'",
        "g'",
        "h'",
        "c'y",
    ];
    proof {
        assert(letters.deep_view() =~= consonant_letters());
    }
    in_native_image_exec(&letters, g)
}

/// Whether a native grapheme is a consonant admissible at the end of a word.
pub fn is_valid_last_consonant(g: &str) -> (r: bool)
    ensures
        r == is_final_consonant_grapheme(g@),
{
    let letters: Vec<&str> = vec!["b", "t", "k", "m", "n", "ng", "l", "r", "s"];
    proof {
        assert(letters.deep_view() =~= final_consonant_letters());
    }
    in_native_image_exec(&letters, g)
}

/// The syllable-structure rules over the native graphemes of a candidate.
pub open spec fn structure_ok(gs: Seq<Seq<char>>) -> bool {
    let n = gs.len();
    if n == 0 {
        false
    } else if n == 1 {
        is_vowel_grapheme(gs[0])
    } else if is_consonant_grapheme(gs[n - 1]) && is_consonant_grapheme(gs[n - 2]) {
        false
    } else if is_consonant_grapheme(gs[n - 1]) {
        is_final_consonant_grapheme(gs[n - 1])
    } else {
        true
    }
}

/// A candidate stem is valid when it converts to Manchu script and the
/// native graphemes obey the syllable rules.
pub open spec fn valid_structure(s: Seq<char>) -> bool {
    match native_ok(s) {
        Some(m) => structure_ok(graphemes_of(m)),
        None => false,
    }
}

/// Decide whether a candidate stem satisfies Manchu syllable structure.  A
/// text the converter rejects is conservatively not a valid stem.
pub fn is_valid_structure(token: &str) -> (r: bool)
    ensures
        r == valid_structure(token@),
{
    match convert_checked(token) {
        None => false,
        Some(m) => {
            let gs = grapheme_split(m.as_str());
            let n = gs.len();
            if n == 0 {
                false
            } else if n == 1 {
                proof {
                    assert(gs.deep_view()[0] == gs@[0]@);
                }
                is_vowel(gs[0].as_str())
            } else {
                proof {
                    assert(gs.deep_view()[n - 1] == gs@[n - 1]@);
                    assert(gs.deep_view()[n - 2] == gs@[n - 2]@);
                }
                let last_cons = is_consonant(gs[n - 1].as_str());
                if last_cons && is_consonant(gs[n - 2].as_str()) {
                    false
                } else if last_cons {
                    is_valid_last_consonant(gs[n - 1].as_str())
                } else {
                    true
                }
            }
        },
    }
}

/// A word converts when its base and every suffix surface convert.
pub open spec fn word_convertible(w: WordV) -> bool {
    &&& native_ok(w.base) is Some
    &&& match w.suffixes {
        Some(ss) => forall|i: int| 0 <= i < ss.len() ==> native_ok((#[trigger] ss[i]).suffix) is Some,
        None => true,
    }
}

/// The suffix list with every surface replaced by its native image.
pub open spec fn suffixes_to_native(ss: Seq<SuffixV>) -> Seq<SuffixV> {
    Seq::new(
        ss.len(),
        |i: int|
            SuffixV {
                suffix: native_ok(ss[i].suffix).unwrap(),
                conjugation: ss[i].conjugation,
                role: ss[i].role,
                part_of_speech: ss[i].part_of_speech,
            },
    )
}

impl Word {
    /// Replace the base and every suffix surface with their native-script
    /// images.  On any conversion failure the word is left unchanged and
    /// the error is surfaced.
    pub fn to_manchu_letters(&mut self) -> (r: Result<(), MorphError>)
        ensures
            r is Ok <==> word_convertible(old(self)@),
            r is Err ==> r == Err::<(), MorphError>(MorphError::ConversionError) && final(self)@
                == old(self)@,
            r is Ok ==> final(self)@ == (WordV {
                base: native_ok(old(self)@.base).unwrap(),
                suffixes: match old(self)@.suffixes {
                    Some(ss) => Some(suffixes_to_native(ss)),
                    None => None,
                },
                part_of_speech: old(self)@.part_of_speech,
                detail: old(self)@.detail,
                emission_cost: old(self)@.emission_cost,
            }),
    {
        let new_base = match convert_checked(self.base.as_str()) {
            Some(b) => b,
            None => {
                return Err(MorphError::ConversionError);
            },
        };
        let new_suffixes: Option<Vec<Suffix>> = match &self.suffixes {
            None => None,
            Some(ss) => {
                let ghost ssv = ss.deep_view();
                let n = ss.len();
                let mut out: Vec<Suffix> = Vec::new();
                let mut i: usize = 0;
                while i < n
                    invariant
                        0 <= i <= n,
                        n == ssv.len(),
                        ss.deep_view() == ssv,
                        old(self)@.suffixes == Some(ssv),
                        native_ok(old(self)@.base) is Some,
                        new_base@ == native_ok(old(self)@.base).unwrap(),
                        forall|k: int|
                            0 <= k < i ==> native_ok((#[trigger] ssv[k]).suffix) is Some,
                        out.deep_view() =~= suffixes_to_native(ssv).subrange(0, i as int),
                    decreases n - i,
                {
                    proof {
                        assert(ss.deep_view()[i as int] == ss@[i as int]@);
                    }
                    let converted = match convert_checked(ss[i].suffix.as_str()) {
                        Some(c) => c,
                        None => {
                            return Err(MorphError::ConversionError);
                        },
                    };
                    let mut ns = dup_suffix(&ss[i]);
                    ns.suffix = converted;
                    let ghost out0 = out.deep_view();
                    out.push(ns);
                    proof {
                        assert(out.deep_view() =~= out0.push(ns@));
                        assert(out.deep_view() =~= suffixes_to_native(ssv).subrange(
                            0,
                            i as int + 1,
                        ));
                    }
                    i += 1;
                }
                proof {
                    assert(suffixes_to_native(ssv).subrange(0, n as int) =~= suffixes_to_native(
                        ssv,
                    ));
                }
                Some(out)
            },
        };
        self.base = new_base;
        self.suffixes = new_suffixes;
        Ok(())
    }
}

/// Whether the last native grapheme of a token is one of the nine
/// admissible final consonants, for downstream scoring heuristics.
pub open spec fn unusual_final_consonant(s: Seq<char>) -> bool {
    match native_ok(s) {
        Some(m) => {
            let gs = graphemes_of(m);
            gs.len() > 0 && is_final_consonant_grapheme(gs[gs.len() - 1])
        },
        None => false,
    }
}

/// Decide whether a token ends in an admissible final consonant.
pub fn is_unusual_final_consonant(token: &str) -> (r: bool)
    ensures
        r == unusual_final_consonant(token@),
{
    match convert_checked(token) {
        None => false,
        Some(m) => {
            let gs = grapheme_split(m.as_str());
            let n = gs.len();
            if n == 0 {
                false
            } else {
                proof {
                    assert(gs.deep_view()[n - 1] == gs@[n - 1]@);
                }
                is_valid_last_consonant(gs[n - 1].as_str())
            }
        },
    }
}

} // verus!
