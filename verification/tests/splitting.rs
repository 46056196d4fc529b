//! Tests of the suffix splitter, the segmentation enumerator and the
//! clitic splitter.

use manchu_morph::split_clitic::split_word_into_word_clitic;
use manchu_morph::split_suffix::{generate_all_segmentations, split_word_into_suffix_base};
use manchu_morph::word::{Case, Detail, MorphError, PartOfSpeech};

#[test]
fn lib_it_works() {
    let valid_word = manchu_morph::split_word_into_suffix_base("tuwabumbi");

    let expected_base = "tuwabu";
    let expected_suffix = "mbi";

    match valid_word {
        Ok(splited_word) => {
            assert_eq!(splited_word.base(), expected_base);
            assert_eq!(splited_word.suffix(), Some(expected_suffix));
        }
        Err(_) => assert!(false),
    }

    let whitespace = manchu_morph::split_word_into_suffix_base("   ");
    assert!(whitespace.is_err());

    let empty = manchu_morph::split_word_into_suffix_base("");
    assert!(empty.is_err());
}

#[test]
fn split_suffix_it_works() {
    let valid_word = split_word_into_suffix_base("tuwabumbi");

    let expected_base = "tuwabu";
    let expected_suffix = "mbi";

    match valid_word {
        Ok(split_word) => {
            let suffix = split_word.suffixes.unwrap();
            assert_eq!(split_word.base, expected_base);
            assert_eq!(suffix[0].suffix, expected_suffix);
        }
        Err(_) => assert!(false),
    }

    let whitespace = split_word_into_suffix_base("   ");
    assert!(whitespace.is_err());

    let empty = split_word_into_suffix_base("");
    assert!(empty.is_err());
}

#[test]
fn test_generate_all_segmentations() {
    let valid_word = generate_all_segmentations("tuwabumbi", vec![]);
    assert_eq!(valid_word.len(), 4);
    assert_eq!(valid_word[0].base, "tuwabumbi");
}

#[test]
fn test_split_word_into_word_clitic() {
    let word = "niyalmai";
    let (word_entry, case_clitic) = split_word_into_word_clitic(word).unwrap();
    assert_eq!(word_entry, "niyalma");
    assert_eq!(case_clitic[0].base, "i");
}

#[test]
fn splitter_error_kinds() {
    assert_eq!(
        split_word_into_suffix_base("").unwrap_err(),
        MorphError::EmptyInput
    );
    assert_eq!(
        split_word_into_suffix_base(" \t ").unwrap_err(),
        MorphError::WhitespaceOnly
    );
    assert_eq!(
        split_word_into_word_clitic("").unwrap_err(),
        MorphError::EmptyInput
    );
    assert_eq!(
        split_word_into_word_clitic("  ").unwrap_err(),
        MorphError::WhitespaceOnly
    );
    assert_eq!(
        split_word_into_word_clitic("morin").unwrap_err(),
        MorphError::NoCliticMatch
    );
}

#[test]
fn enumerator_two_peels_costs() {
    // "tuwabumbi" peels "mbi" then "bu": the four candidates are the noun
    // and adverb seeds plus the one-peel and two-peel analyses.
    let words = generate_all_segmentations("tuwabumbi", vec![]);
    assert_eq!(words.len(), 4);
    assert_eq!(words[0].base, "tuwabumbi");
    assert_eq!(words[0].part_of_speech, PartOfSpeech::Noun);
    assert_eq!(words[0].emission_cost, 0);
    assert_eq!(words[1].base, "tuwabumbi");
    assert_eq!(words[1].part_of_speech, PartOfSpeech::Adverb);
    assert_eq!(words[1].emission_cost, 0);
    assert_eq!(words[2].base, "tuwabu");
    assert_eq!(words[2].emission_cost, -5);
    let s2 = words[2].suffixes.as_ref().unwrap();
    assert_eq!(s2.len(), 1);
    assert_eq!(s2[0].suffix, "mbi");
    assert_eq!(words[3].base, "tuwa");
    assert_eq!(words[3].emission_cost, -10);
    let s3 = words[3].suffixes.as_ref().unwrap();
    assert_eq!(s3.len(), 2);
    assert_eq!(s3[0].suffix, "mbi");
    assert_eq!(s3[1].suffix, "bu");
}

#[test]
fn enumerator_repeels_nothing() {
    // Termination witness: the deepest base peels no further.
    let words = generate_all_segmentations("tuwabumbi", vec![]);
    let deepest = words.last().unwrap();
    let again = split_word_into_suffix_base(&deepest.base).unwrap();
    assert!(again.suffixes.is_none());
}

#[test]
fn enumerator_rejects_invalid_base() {
    // Peeling "mbi" from "admbi" would leave "ad", whose final consonant
    // is inadmissible, so only the two trivial candidates remain.
    let words = generate_all_segmentations("admbi", vec![]);
    assert_eq!(words.len(), 2);
}

#[test]
fn clitic_split_lists_all_cases() {
    // "i" is listed with both the genitive and the nominative.
    let (stem, words) = split_word_into_word_clitic("niyalmai").unwrap();
    assert_eq!(stem, "niyalma");
    assert_eq!(words.len(), 2);
    for w in &words {
        assert_eq!(w.base, "i");
        assert_eq!(w.part_of_speech, PartOfSpeech::Clitic);
        assert_eq!(w.emission_cost, -1);
        assert!(w.suffixes.is_none());
    }
    assert!(matches!(words[0].detail, Some(Detail::Case(Case::Genitive))));
    assert!(matches!(
        words[1].detail,
        Some(Detail::Case(Case::Nominative))
    ));
}

#[test]
fn clitic_surface_alone_is_no_match() {
    // A token equal to a clitic surface leaves no stem, so the splitter
    // reports that no clitic detaches.
    assert_eq!(
        split_word_into_word_clitic("be").unwrap_err(),
        MorphError::NoCliticMatch
    );
    assert_eq!(
        split_word_into_word_clitic("i").unwrap_err(),
        MorphError::NoCliticMatch
    );
}

#[test]
fn segmentation_restores_token() {
    // Re-concatenating base and suffixes in right-attachment order
    // restores the token for every candidate.
    for token in ["tuwabumbi", "cooha", "unggifi", "waki", "seme"] {
        let words = generate_all_segmentations(token, vec![]);
        for w in &words {
            let mut rebuilt = w.base.clone();
            if let Some(suffixes) = &w.suffixes {
                for s in suffixes.iter().rev() {
                    rebuilt.push_str(&s.suffix);
                }
            }
            assert_eq!(rebuilt, token);
        }
    }
}
