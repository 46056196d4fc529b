//! Suffix peeling: a single longest-suffix peel of a token into a base and
//! one suffix, and the enumeration of every prefix of the iterated peel
//! chain.

use vstd::prelude::*;

use crate::phoneme::{is_valid_structure, valid_structure};
use crate::text::{ends_with, has_content, str_ends_with, str_has_content};
use crate::word::{
    dup_suffixes, suffix_count, Conjugation, Detail, DetailV, MorphError, PartOfSpeech, Suffix,
    SuffixRole, SuffixV, Word, WordV,
};

verus! {

/// The suffix table, in preference order: the most specific and longest
/// surfaces stand first, and the first entry whose surface ends a token and
/// leaves a valid base wins.
pub open spec fn suffix_table_spec() -> Seq<SuffixV> {
    seq![
        SuffixV {
            suffix: "nggala"@,
            conjugation: Conjugation::PrefactoryConverb,
            role: SuffixRole::Functional,
            part_of_speech: PartOfSpeech::Verb,
        },
        SuffixV {
            suffix: "ngge"@,
            conjugation: Conjugation::DenominalAdjective,
            role: SuffixRole::DenominalAdjective,
            part_of_speech: PartOfSpeech::Noun,
        },
        SuffixV {
            suffix: "ngga"@,
            conjugation: Conjugation::DenominalAdjective,
            role: SuffixRole::DenominalAdjective,
            part_of_speech: PartOfSpeech::Noun,
        },
        SuffixV {
            suffix: "cibe"@,
            conjugation: Conjugation::ConcessiveConverb,
            role: SuffixRole::Functional,
            part_of_speech: PartOfSpeech::Verb,
        },
        SuffixV {
            suffix: "tala"@,
            conjugation: Conjugation::TerminativeConverb,
            role: SuffixRole::Functional,
            part_of_speech: PartOfSpeech::Verb,
        },
        SuffixV {
            suffix: "tele"@,
            conjugation: Conjugation::TerminativeConverb,
            role: SuffixRole::Functional,
            part_of_speech: PartOfSpeech::Verb,
        },
        SuffixV {
            suffix: "tolo"@,
            conjugation: Conjugation::TerminativeConverb,
            role: SuffixRole::Functional,
            part_of_speech: PartOfSpeech::Verb,
        },
        SuffixV {
            suffix: "rahv"@,
            conjugation: Conjugation::ApprehensiveConverb,
            role: SuffixRole::Functional,
            part_of_speech: PartOfSpeech::Verb,
        },
        SuffixV {
            suffix: "kini"@,
            conjugation: Conjugation::OptativeFinite,
            role: SuffixRole::Functional,
            part_of_speech: PartOfSpeech::Verb,
        },
        SuffixV {
            suffix: "mbi"@,
            conjugation: Conjugation::ImperfectiveFinite,
            role: SuffixRole::Functional,
            part_of_speech: PartOfSpeech::Verb,
        },
        SuffixV {
            suffix: "akv"@,
            conjugation: Conjugation::NegativeParticle,
            role: SuffixRole::Functional,
            part_of_speech: PartOfSpeech::Verb,
        },
        SuffixV {
            suffix: "ha"@,
            conjugation: Conjugation::PerfectiveParticiple,
            role: SuffixRole::Functional,
            part_of_speech: PartOfSpeech::Verb,
        },
        SuffixV {
            suffix: "he"@,
            conjugation: Conjugation::PerfectiveParticiple,
            role: SuffixRole::Functional,
            part_of_speech: PartOfSpeech::Verb,
        },
        SuffixV {
            suffix: "ho"@,
            conjugation: Conjugation::PerfectiveParticiple,
            role: SuffixRole::Functional,
            part_of_speech: PartOfSpeech::Verb,
        },
        SuffixV {
            suffix: "fi"@,
            conjugation: Conjugation::PerfectiveConverb,
            role: SuffixRole::Functional,
            part_of_speech: PartOfSpeech::Verb,
        },
        SuffixV {
            suffix: "me"@,
            conjugation: Conjugation::ImperfectiveConverb,
            role: SuffixRole::Functional,
            part_of_speech: PartOfSpeech::Verb,
        },
        SuffixV {
            suffix: "ki"@,
            conjugation: Conjugation::OptativeFinite,
            role: SuffixRole::Functional,
            part_of_speech: PartOfSpeech::Verb,
        },
        SuffixV {
            suffix: "ci"@,
            conjugation: Conjugation::ConditionalConverb,
            role: SuffixRole::Functional,
            part_of_speech: PartOfSpeech::Verb,
        },
        SuffixV {
            suffix: "bu"@,
            conjugation: Conjugation::PassiveCausativeVerbal,
            role: SuffixRole::Derivational,
            part_of_speech: PartOfSpeech::Verb,
        },
        SuffixV {
            suffix: "sa"@,
            conjugation: Conjugation::Plural,
            role: SuffixRole::Functional,
            part_of_speech: PartOfSpeech::Noun,
        },
        SuffixV {
            suffix: "se"@,
            conjugation: Conjugation::Plural,
            role: SuffixRole::Functional,
            part_of_speech: PartOfSpeech::Noun,
        },
        SuffixV {
            suffix: "ta"@,
            conjugation: Conjugation::Plural,
            role: SuffixRole::Functional,
            part_of_speech: PartOfSpeech::Noun,
        },
    ]
}

/// Every surface of the suffix table is non-empty.
pub proof fn lemma_suffix_table_wf()
    ensures
        forall|i: int|
            0 <= i < suffix_table_spec().len() ==> (#[trigger] suffix_table_spec()[i]).suffix.len()
                > 0,
{
    reveal_strlit("nggala");
    reveal_strlit("ngge");
    reveal_strlit("ngga");
    reveal_strlit("cibe");
    reveal_strlit("tala");
    reveal_strlit("tele");
    reveal_strlit("tolo");
    reveal_strlit("rahv");
    reveal_strlit("kini");
    reveal_strlit("mbi");
    reveal_strlit("akv");
    reveal_strlit("ha");
    reveal_strlit("he");
    reveal_strlit("ho");
    reveal_strlit("fi");
    reveal_strlit("me");
    reveal_strlit("ki");
    reveal_strlit("ci");
    reveal_strlit("bu");
    reveal_strlit("sa");
    reveal_strlit("se");
    reveal_strlit("ta");
}

/// The suffix table as an in-memory vector, in preference order.
pub fn get_suffix_table() -> (r: Vec<Suffix>)
    ensures
        r.deep_view() == suffix_table_spec(),
{
    let mut t: Vec<Suffix> = Vec::new();
    t.push(
        Suffix::new(
            String::from_str("nggala"),
            Conjugation::PrefactoryConverb,
            SuffixRole::Functional,
            PartOfSpeech::Verb,
        ),
    );
    t.push(
        Suffix::new(
            String::from_str("ngge"),
            Conjugation::DenominalAdjective,
            SuffixRole::DenominalAdjective,
            PartOfSpeech::Noun,
        ),
    );
    t.push(
        Suffix::new(
            String::from_str("ngga"),
            Conjugation::DenominalAdjective,
            SuffixRole::DenominalAdjective,
            PartOfSpeech::Noun,
        ),
    );
    t.push(
        Suffix::new(
            String::from_str("cibe"),
            Conjugation::ConcessiveConverb,
            SuffixRole::Functional,
            PartOfSpeech::Verb,
        ),
    );
    t.push(
        Suffix::new(
            String::from_str("tala"),
            Conjugation::TerminativeConverb,
            SuffixRole::Functional,
            PartOfSpeech::Verb,
        ),
    );
    t.push(
        Suffix::new(
            String::from_str("tele"),
            Conjugation::TerminativeConverb,
            SuffixRole::Functional,
            PartOfSpeech::Verb,
        ),
    );
    t.push(
        Suffix::new(
            String::from_str("tolo"),
            Conjugation::TerminativeConverb,
            SuffixRole::Functional,
            PartOfSpeech::Verb,
        ),
    );
    t.push(
        Suffix::new(
            String::from_str("rahv"),
            Conjugation::ApprehensiveConverb,
            SuffixRole::Functional,
            PartOfSpeech::Verb,
        ),
    );
    t.push(
        Suffix::new(
            String::from_str("kini"),
            Conjugation::OptativeFinite,
            SuffixRole::Functional,
            PartOfSpeech::Verb,
        ),
    );
    t.push(
        Suffix::new(
            String::from_str("mbi"),
            Conjugation::ImperfectiveFinite,
            SuffixRole::Functional,
            PartOfSpeech::Verb,
        ),
    );
    t.push(
        Suffix::new(
            String::from_str("akv"),
            Conjugation::NegativeParticle,
            SuffixRole::Functional,
            PartOfSpeech::Verb,
        ),
    );
    t.push(
        Suffix::new(
            String::from_str("ha"),
            Conjugation::PerfectiveParticiple,
            SuffixRole::Functional,
            PartOfSpeech::Verb,
        ),
    );
    t.push(
        Suffix::new(
            String::from_str("he"),
            Conjugation::PerfectiveParticiple,
            SuffixRole::Functional,
            PartOfSpeech::Verb,
        ),
    );
    t.push(
        Suffix::new(
            String::from_str("ho"),
            Conjugation::PerfectiveParticiple,
            SuffixRole::Functional,
            PartOfSpeech::Verb,
        ),
    );
    t.push(
        Suffix::new(
            String::from_str("fi"),
            Conjugation::PerfectiveConverb,
            SuffixRole::Functional,
            PartOfSpeech::Verb,
        ),
    );
    t.push(
        Suffix::new(
            String::from_str("me"),
            Conjugation::ImperfectiveConverb,
            SuffixRole::Functional,
            PartOfSpeech::Verb,
        ),
    );
    t.push(
        Suffix::new(
            String::from_str("ki"),
            Conjugation::OptativeFinite,
            SuffixRole::Functional,
            PartOfSpeech::Verb,
        ),
    );
    t.push(
        Suffix::new(
            String::from_str("ci"),
            Conjugation::ConditionalConverb,
            SuffixRole::Functional,
            PartOfSpeech::Verb,
        ),
    );
    t.push(
        Suffix::new(
            String::from_str("bu"),
            Conjugation::PassiveCausativeVerbal,
            SuffixRole::Derivational,
            PartOfSpeech::Verb,
        ),
    );
    t.push(
        Suffix::new(
            String::from_str("sa"),
            Conjugation::Plural,
            SuffixRole::Functional,
            PartOfSpeech::Noun,
        ),
    );
    t.push(
        Suffix::new(
            String::from_str("se"),
            Conjugation::Plural,
            SuffixRole::Functional,
            PartOfSpeech::Noun,
        ),
    );
    t.push(
        Suffix::new(
            String::from_str("ta"),
            Conjugation::Plural,
            SuffixRole::Functional,
            PartOfSpeech::Noun,
        ),
    );
    proof {
        assert(t.deep_view() =~= suffix_table_spec());
    }
    t
}

/// The first table entry, from index `i` on, whose surface ends the token
/// and whose remaining base is phonotactically valid.
pub open spec fn first_peel_from(t: Seq<SuffixV>, s: Seq<char>, i: int) -> Option<
    (Seq<char>, SuffixV),
>
    decreases t.len() - i,
{
    if i < 0 || i >= t.len() {
        None
    } else if ends_with(s, t[i].suffix) && valid_structure(
        s.subrange(0, s.len() - t[i].suffix.len()),
    ) {
        Some((s.subrange(0, s.len() - t[i].suffix.len()), t[i]))
    } else {
        first_peel_from(t, s, i + 1)
    }
}

/// One peel of a token: the first matching suffix of the table, or nothing.
/// A token without content never peels.
pub open spec fn peel(s: Seq<char>) -> Option<(Seq<char>, SuffixV)> {
    if has_content(s) {
        first_peel_from(suffix_table_spec(), s, 0)
    } else {
        None
    }
}

/// A successful peel leaves a strictly shorter base carrying a table entry.
pub proof fn lemma_first_peel_props(t: Seq<SuffixV>, s: Seq<char>, i: int)
    ensures
        match first_peel_from(t, s, i) {
            Some((b, sv)) => {
                &&& ends_with(s, sv.suffix)
                &&& b == s.subrange(0, s.len() - sv.suffix.len())
                &&& valid_structure(b)
                &&& exists|j: int| i <= j < t.len() && t[j] == sv
            },
            None => true,
        },
    decreases t.len() - i,
{
    if i < 0 || i >= t.len() {
    } else if ends_with(s, t[i].suffix) && valid_structure(
        s.subrange(0, s.len() - t[i].suffix.len()),
    ) {
        assert(t[i] == first_peel_from(t, s, i).unwrap().1);
    } else {
        lemma_first_peel_props(t, s, i + 1);
    }
}

/// A successful peel strictly shortens the token.
pub proof fn lemma_peel_shrinks(s: Seq<char>)
    ensures
        match peel(s) {
            Some((b, sv)) => b.len() < s.len() && sv.suffix.len() > 0,
            None => true,
        },
{
    if has_content(s) {
        lemma_first_peel_props(suffix_table_spec(), s, 0);
        lemma_suffix_table_wf();
    }
}

/// A trivial, unsegmented reading of a token.
pub open spec fn trivial_word(s: Seq<char>, pos: PartOfSpeech) -> WordV {
    WordV { base: s, suffixes: None, part_of_speech: pos, detail: None, emission_cost: 0 }
}

/// The word recording a peel chain: the outermost suffix fixes the part of
/// speech and the conjugation, and each suffix costs five.
pub open spec fn peeled_word(base: Seq<char>, sufs: Seq<SuffixV>) -> WordV {
    WordV {
        base,
        suffixes: Some(sufs),
        part_of_speech: sufs[0].part_of_speech,
        detail: Some(DetailV::Conjugation(sufs[0].conjugation)),
        emission_cost: -5 * sufs.len(),
    }
}

/// What a single splitter call returns on a token.
pub open spec fn split_spec(s: Seq<char>) -> Result<WordV, MorphError> {
    if s.len() == 0 {
        Err(MorphError::EmptyInput)
    } else if !has_content(s) {
        Err(MorphError::WhitespaceOnly)
    } else {
        match peel(s) {
            Some((b, sv)) => Ok(peeled_word(b, seq![sv])),
            None => Ok(trivial_word(s, PartOfSpeech::Noun)),
        }
    }
}

/// Split a word into one suffix and its base.
///
/// The first table entry whose surface ends the word and whose remaining
/// base is a valid stem wins; when none matches, the whole word comes back
/// as an unsegmented noun reading.  An empty or all-whitespace word is
/// rejected.
pub fn split_word_into_suffix_base(word: &str) -> (r: Result<Word, MorphError>)
    ensures
        match r {
            Ok(w) => split_spec(word@) == Ok::<WordV, MorphError>(w@),
            Err(e) => split_spec(word@) == Err::<WordV, MorphError>(e),
        },
{
    if word.unicode_len() == 0 {
        return Err(MorphError::EmptyInput);
    }
    if !str_has_content(word) {
        return Err(MorphError::WhitespaceOnly);
    }
    let table = get_suffix_table();
    let ghost tspec = suffix_table_spec();
    let n = table.len();
    let mut i: usize = 0;
    while i < n
        invariant
            0 <= i <= n,
            n == tspec.len(),
            tspec == suffix_table_spec(),
            table.deep_view() == tspec,
            word@.len() > 0,
            has_content(word@),
            first_peel_from(tspec, word@, 0) == first_peel_from(tspec, word@, i as int),
        decreases n - i,
    {
        proof {
            assert(table.deep_view()[i as int] == table@[i as int]@);
        }
        let surface = table[i].suffix.as_str();
        if str_ends_with(word, surface) {
            let wl = word.unicode_len();
            let sl = surface.unicode_len();
            let base = word.substring_char(0, wl - sl);
            if is_valid_structure(base) {
                let mut sufs: Vec<Suffix> = Vec::new();
                let conjugation = table[i].conjugation;
                let part_of_speech = table[i].part_of_speech;
                let role = table[i].role;
                sufs.push(
                    Suffix::new(
                        String::from_str(surface),
                        conjugation,
                        role,
                        part_of_speech,
                    ),
                );
                let w = Word::new(
                    String::from_str(base),
                    Some(sufs),
                    part_of_speech,
                    Some(Detail::Conjugation(conjugation)),
                );
                proof {
                    assert(base@ =~= word@.subrange(
                        0,
                        word@.len() - tspec[i as int].suffix.len(),
                    ));
                    assert(first_peel_from(tspec, word@, i as int) == Some(
                        (word@.subrange(0, word@.len() - tspec[i as int].suffix.len()),
                        tspec[i as int]),
                    ));
                    assert(peel(word@) == Some((base@, tspec[i as int])));
                    assert(w@.suffixes.unwrap() =~= seq![tspec[i as int]]);
                    assert(w@ == peeled_word(base@, seq![tspec[i as int]]));
                    assert(split_spec(word@) == Ok::<WordV, MorphError>(
                        peeled_word(base@, seq![tspec[i as int]]),
                    ));
                }
                return Ok(w);
            }
        }
        proof {
            assert(first_peel_from(tspec, word@, i as int) == first_peel_from(
                tspec,
                word@,
                i as int + 1,
            ));
        }
        i += 1;
    }
    let w = Word::new(String::from_str(word), None, PartOfSpeech::Noun, None);
    Ok(w)
}

/// The words recorded while peeling a token to exhaustion: one word per
/// successful peel, each carrying every suffix peeled so far (outermost
/// first).
pub open spec fn peel_chain(s: Seq<char>, acc: Seq<SuffixV>) -> Seq<WordV>
    decreases s.len(),
    via peel_chain_dec
{
    match peel(s) {
        None => seq![],
        Some((b, sv)) => seq![peeled_word(b, acc.push(sv))] + peel_chain(b, acc.push(sv)),
    }
}

#[via_fn]
proof fn peel_chain_dec(s: Seq<char>, acc: Seq<SuffixV>) {
    lemma_peel_shrinks(s);
}

/// The two trivial candidates that open every enumeration: the token as an
/// uninflected noun and as an adverb.
pub open spec fn seed_words(token: Seq<char>) -> Seq<WordV> {
    seq![trivial_word(token, PartOfSpeech::Noun), trivial_word(token, PartOfSpeech::Adverb)]
}

/// The suffixes the peel chain starts from: those of the last word already
/// accumulated.
pub open spec fn init_acc(ws: Seq<WordV>) -> Seq<SuffixV> {
    if ws.len() == 0 {
        seq![]
    } else {
        match ws.last().suffixes {
            Some(ss) => ss,
            None => seq![],
        }
    }
}

/// Every prefix of the iterated peel chain of a token, after the two
/// trivial seed candidates (or after the words already accumulated).
pub open spec fn all_segmentations_spec(token: Seq<char>, init: Seq<WordV>) -> Seq<WordV> {
    let seeded = if init.len() == 0 {
        seed_words(token)
    } else {
        init
    };
    seeded + peel_chain(token, init_acc(seeded))
}

/// The suffix surfaces of a word laid back onto its base: rightmost
/// (innermost) suffix first, since index 0 holds the outermost one.
pub open spec fn suffixes_concat_rev(ss: Seq<SuffixV>) -> Seq<char>
    decreases ss.len(),
{
    if ss.len() == 0 {
        seq![]
    } else {
        ss.last().suffix + suffixes_concat_rev(ss.drop_last())
    }
}

/// The stretch of text a word covers: its base followed by its suffixes in
/// right-attachment order.
pub open spec fn word_surface(w: WordV) -> Seq<char> {
    w.base + match w.suffixes {
        Some(ss) => suffixes_concat_rev(ss),
        None => seq![],
    }
}

/// Every word of a peel chain restores the token it came from, carries one
/// more suffix than its position, and costs five per suffix.
pub proof fn lemma_chain_props(s: Seq<char>, acc: Seq<SuffixV>, token: Seq<char>)
    requires
        s + suffixes_concat_rev(acc) == token,
    ensures
        forall|j: int|
            0 <= j < peel_chain(s, acc).len() ==> {
                let w = #[trigger] peel_chain(s, acc)[j];
                &&& w.suffixes is Some
                &&& w.suffixes.unwrap().len() == acc.len() + j + 1
                &&& w.emission_cost == -5 * (acc.len() + j + 1)
                &&& word_surface(w) == token
            },
    decreases s.len(),
{
    lemma_peel_shrinks(s);
    match peel(s) {
        None => {},
        Some((b, sv)) => {
            lemma_first_peel_props(suffix_table_spec(), s, 0);
            let acc2 = acc.push(sv);
            assert(acc2.drop_last() =~= acc);
            assert(acc2.last() == sv);
            assert(suffixes_concat_rev(acc2) == sv.suffix + suffixes_concat_rev(acc));
            assert(s =~= s.subrange(0, s.len() - sv.suffix.len()) + s.subrange(
                s.len() - sv.suffix.len(),
                s.len() as int,
            ));
            assert(b + sv.suffix == s);
            assert(b + (sv.suffix + suffixes_concat_rev(acc)) =~= (b + sv.suffix)
                + suffixes_concat_rev(acc));
            assert(b + suffixes_concat_rev(acc2) == token);
            let w0 = peeled_word(b, acc2);
            assert(word_surface(w0) == token);
            lemma_chain_props(b, acc2, token);
            let rec = peel_chain(b, acc2);
            assert(peel_chain(s, acc) == seq![w0] + rec);
            assert forall|j: int| 0 <= j < peel_chain(s, acc).len() implies {
                let w = #[trigger] peel_chain(s, acc)[j];
                &&& w.suffixes is Some
                &&& w.suffixes.unwrap().len() == acc.len() + j + 1
                &&& w.emission_cost == -5 * (acc.len() + j + 1)
                &&& word_surface(w) == token
            } by {
                if j == 0 {
                    assert(peel_chain(s, acc)[0] == w0);
                } else {
                    assert(peel_chain(s, acc)[j] == rec[j - 1]);
                }
            }
        },
    }
}

/// A peel chain is never longer than the token it peels.
pub proof fn lemma_chain_len(s: Seq<char>, acc: Seq<SuffixV>)
    ensures
        peel_chain(s, acc).len() <= s.len(),
    decreases s.len(),
{
    lemma_peel_shrinks(s);
    match peel(s) {
        None => {},
        Some((b, sv)) => {
            lemma_chain_len(b, acc.push(sv));
        },
    }
}

/// Every word of a peel chain carries one more suffix than its position
/// and costs five per suffix.
pub proof fn lemma_chain_emissions(s: Seq<char>, acc: Seq<SuffixV>)
    ensures
        forall|j: int|
            0 <= j < peel_chain(s, acc).len() ==> {
                let w = #[trigger] peel_chain(s, acc)[j];
                &&& w.suffixes is Some
                &&& w.suffixes.unwrap().len() == acc.len() + j + 1
                &&& w.emission_cost == -5 * (acc.len() + j + 1)
            },
    decreases s.len(),
{
    lemma_peel_shrinks(s);
    match peel(s) {
        None => {},
        Some((b, sv)) => {
            let acc2 = acc.push(sv);
            let w0 = peeled_word(b, acc2);
            let rec = peel_chain(b, acc2);
            lemma_chain_emissions(b, acc2);
            assert forall|j: int| 0 <= j < peel_chain(s, acc).len() implies {
                let w = #[trigger] peel_chain(s, acc)[j];
                &&& w.suffixes is Some
                &&& w.suffixes.unwrap().len() == acc.len() + j + 1
                &&& w.emission_cost == -5 * (acc.len() + j + 1)
            } by {
                if j == 0 {
                    assert(peel_chain(s, acc)[0] == w0);
                } else {
                    assert(peel_chain(s, acc)[j] == rec[j - 1]);
                }
            }
        },
    }
}

/// Law: every candidate the enumerator emits costs exactly minus five per
/// suffix it carries, so its cost lies between minus five times the token
/// length and zero.
pub proof fn lemma_enumerator_costs(token: Seq<char>)
    ensures
        forall|j: int|
            0 <= j < all_segmentations_spec(token, seq![]).len() ==> {
                let w = #[trigger] all_segmentations_spec(token, seq![])[j];
                &&& w.emission_cost == -5 * suffix_count(w.suffixes)
                &&& -5 * token.len() <= w.emission_cost <= 0
            },
{
    let seeded = seed_words(token);
    let acc = init_acc(seeded);
    assert(acc =~= Seq::<SuffixV>::empty());
    let chain = peel_chain(token, acc);
    lemma_chain_emissions(token, acc);
    lemma_chain_len(token, acc);
    assert forall|j: int| 0 <= j < all_segmentations_spec(token, seq![]).len() implies {
        let w = #[trigger] all_segmentations_spec(token, seq![])[j];
        &&& w.emission_cost == -5 * suffix_count(w.suffixes)
        &&& -5 * token.len() <= w.emission_cost <= 0
    } by {
        if j < 2 {
            assert(all_segmentations_spec(token, seq![])[j] == seeded[j]);
        } else {
            assert(all_segmentations_spec(token, seq![])[j] == chain[j - 2]);
            assert(chain[j - 2].suffixes.unwrap().len() == j - 1);
            assert(j - 1 <= chain.len() + 1);
        }
    }
}

/// Law: re-concatenating each candidate's base and suffixes, in
/// right-attachment order, restores the token — no phantom characters.
pub proof fn lemma_all_seg_surfaces(token: Seq<char>)
    ensures
        forall|j: int|
            0 <= j < all_segmentations_spec(token, seq![]).len() ==> word_surface(
                #[trigger] all_segmentations_spec(token, seq![])[j],
            ) == token,
{
    let seeded = seed_words(token);
    let acc = init_acc(seeded);
    assert(acc =~= Seq::<SuffixV>::empty());
    assert(token + suffixes_concat_rev(acc) =~= token);
    lemma_chain_props(token, acc, token);
    let chain = peel_chain(token, acc);
    assert forall|j: int| 0 <= j < all_segmentations_spec(token, seq![]).len() implies word_surface(
        #[trigger] all_segmentations_spec(token, seq![])[j],
    ) == token by {
        if j < 2 {
            assert(all_segmentations_spec(token, seq![])[j] == seeded[j]);
            assert(word_surface(seeded[j]) =~= token);
        } else {
            assert(all_segmentations_spec(token, seq![])[j] == chain[j - 2]);
        }
    }
}

/// A non-empty peel chain ends in a word whose base no longer peels.
pub proof fn lemma_chain_last(s: Seq<char>, acc: Seq<SuffixV>)
    ensures
        peel_chain(s, acc).len() > 0 ==> peel(peel_chain(s, acc).last().base) is None,
    decreases s.len(),
{
    lemma_peel_shrinks(s);
    match peel(s) {
        None => {},
        Some((b, sv)) => {
            let acc2 = acc.push(sv);
            let rec = peel_chain(b, acc2);
            lemma_chain_last(b, acc2);
            if rec.len() > 0 {
                assert(peel_chain(s, acc).last() == rec.last());
            } else {
                assert(peel_chain(s, acc).last() == peeled_word(b, acc2));
            }
        },
    }
}

/// Law: the segmentation enumerator is idempotent on its output.  The list
/// it returns is never empty, and re-peeling the base of its deepest
/// (last) word yields no further peel: a witness that enumeration stopped
/// only where nothing more can be stripped.
pub proof fn lemma_segmentation_idempotent(token: Seq<char>)
    ensures
        all_segmentations_spec(token, seq![]).len() > 0,
        peel(all_segmentations_spec(token, seq![]).last().base) is None,
{
    let seeded = seed_words(token);
    let chain = peel_chain(token, init_acc(seeded));
    assert(init_acc(seeded) =~= Seq::<SuffixV>::empty());
    lemma_chain_last(token, init_acc(seeded));
    if chain.len() == 0 {
        assert(all_segmentations_spec(token, seq![]).last() == seeded[1]);
        assert(seeded[1].base == token);
    } else {
        assert(all_segmentations_spec(token, seq![]).last() == chain.last());
    }
}

/// Generate all possible segmentations of a token.
///
/// With an empty accumulator the result opens with the trivial noun and
/// adverb readings of the whole token; then, while the remaining base still
/// peels, each peel appends one word carrying all suffixes peeled so far.
/// Tokens and accumulators are capped at 2^28 entries so that the emission
/// costs stay within machine integers.
pub fn generate_all_segmentations(token: &str, words: Vec<Word>) -> (r: Vec<Word>)
    requires
        token@.len() <= 0x1000_0000,
        init_acc(
            if words.deep_view().len() == 0 {
                seed_words(token@)
            } else {
                words.deep_view()
            },
        ).len() <= 0x1000_0000,
    ensures
        r.deep_view() == all_segmentations_spec(token@, words.deep_view()),
{
    let ghost init = words.deep_view();
    let mut out = words;
    if out.len() == 0 {
        out.push(Word::new(String::from_str(token), None, PartOfSpeech::Noun, None));
        out.push(Word::new(String::from_str(token), None, PartOfSpeech::Adverb, None));
        proof {
            assert(out.deep_view() =~= seed_words(token@));
        }
    }
    let ghost seeded = out.deep_view();
    let last = out.len() - 1;
    let mut acc: Vec<Suffix> = match &out[last].suffixes {
        Some(s) => dup_suffixes(s),
        None => Vec::new(),
    };
    proof {
        assert(acc.deep_view() =~= init_acc(seeded));
        assert(seeded + peel_chain(token@, init_acc(seeded)) == out.deep_view() + peel_chain(
            token@,
            acc.deep_view(),
        ));
    }
    let mut cur: String = String::from_str(token);
    let mut done = false;
    while !done
        invariant
            all_segmentations_spec(token@, init) == out.deep_view() + (if done {
                Seq::<WordV>::empty()
            } else {
                peel_chain(cur@, acc.deep_view())
            }),
            !done ==> acc.deep_view().len() + cur@.len() <= 0x2000_0000,
        decreases cur@.len(), (if done {
            0int
        } else {
            1int
        }),
    {
        let ghost cur0 = cur@;
        let ghost acc0 = acc.deep_view();
        let step = split_word_into_suffix_base(cur.as_str());
        match step {
            Err(_) => {
                proof {
                    assert(!has_content(cur0));
                    assert(peel_chain(cur0, acc0) =~= Seq::<WordV>::empty());
                    assert(out.deep_view() + peel_chain(cur0, acc0) =~= out.deep_view()
                        + Seq::<WordV>::empty());
                }
                done = true;
            },
            Ok(w) => {
                let Word { base: wbase, suffixes: wsufs, part_of_speech: _, detail: _, emission_cost: _ } =
                    w;
                match wsufs {
                    None => {
                        proof {
                            assert(peel(cur0) is None);
                            assert(peel_chain(cur0, acc0) =~= Seq::<WordV>::empty());
                        }
                        done = true;
                    },
                    Some(sv_vec) => {
                        proof {
                            lemma_peel_shrinks(cur0);
                            assert(peel(cur0) is Some);
                        }
                        let ghost pair = peel(cur0).unwrap();
                        let mut sv_vec = sv_vec;
                        let s0 = sv_vec.pop().unwrap();
                        proof {
                            assert(sv_vec@.len() == 0);
                            assert(s0@ == pair.1);
                            assert(wbase@ == pair.0);
                        }
                        acc.push(s0);
                        proof {
                            assert(acc.deep_view() =~= acc0.push(pair.1));
                        }
                        let pos = acc[0].part_of_speech;
                        let conj = acc[0].conjugation;
                        let nw = Word::new(
                            wbase.clone(),
                            Some(dup_suffixes(&acc)),
                            pos,
                            Some(Detail::Conjugation(conj)),
                        );
                        proof {
                            assert(nw@ == peeled_word(pair.0, acc0.push(pair.1)));
                            assert(peel_chain(cur0, acc0) == seq![
                                peeled_word(pair.0, acc0.push(pair.1)),
                            ] + peel_chain(pair.0, acc0.push(pair.1)));
                        }
                        let ghost out0 = out.deep_view();
                        out.push(nw);
                        proof {
                            assert(out.deep_view() =~= out0.push(nw@));
                            assert(out0.push(nw@) =~= out0 + seq![nw@]);
                            assert((out0 + seq![nw@]) + peel_chain(pair.0, acc0.push(pair.1))
                                =~= out0 + (seq![nw@] + peel_chain(pair.0, acc0.push(pair.1))));
                        }
                        cur = wbase;
                    },
                }
            },
        }
    }
    proof {
        assert(out.deep_view() + Seq::<WordV>::empty() =~= out.deep_view());
    }
    out
}

} // verus!
