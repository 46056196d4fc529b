//! Tests of the JSON encoding, the phonotactic validator and the
//! native-script conversion.

use manchu_morph::json::path_to_json;
use manchu_morph::lattice::Lattice;
use manchu_morph::phoneme::{is_unusual_final_consonant, is_valid_structure};
use manchu_morph::word::{MorphError, PartOfSpeech, Word};

#[test]
fn json_of_empty_sentence() {
    let lattice = Lattice::from_sentence("");
    assert_eq!(lattice.to_json_string(), "{\"sentence\":\"\",\"lattice\":[]}");
}

#[test]
fn json_is_well_formed() {
    let sentence = "cooha be";
    let mut lattice = Lattice::from_sentence(sentence);
    lattice.calculate_path_costs();
    let text = lattice.to_json_string();
    let value: serde_json::Value = serde_json::from_str(&text).unwrap();
    assert_eq!(value["sentence"], sentence);
    let columns = value["lattice"].as_array().unwrap();
    assert_eq!(columns.len(), 2);
    for column in columns {
        assert!(!column.as_array().unwrap().is_empty());
    }
    let first = &columns[0].as_array().unwrap()[0];
    assert_eq!(first["words"][0]["base"], "cooha");
    assert_eq!(first["category"], "noun");
}

#[test]
fn json_escapes_specials() {
    let lattice = Lattice::from_sentence("say\"so");
    let text = lattice.to_json_string();
    let value: serde_json::Value = serde_json::from_str(&text).unwrap();
    assert_eq!(value["sentence"], "say\"so");
}

#[test]
fn best_path_json() {
    let mut lattice = Lattice::from_sentence("tuwabumbi");
    lattice.calculate_path_costs();
    let path = lattice.get_min_cost_path();
    let text = path_to_json(&path);
    let value: serde_json::Value = serde_json::from_str(&text).unwrap();
    let groups = value.as_array().unwrap();
    assert_eq!(groups.len(), 1);
    let word = &groups[0].as_array().unwrap()[0];
    assert!(word["base"].is_string());
    assert!(word["emission_cost"].is_i64());
}

#[test]
fn validator_accepts_open_and_legal_codas() {
    assert!(is_valid_structure("a"));
    assert!(is_valid_structure("tuwabu"));
    assert!(is_valid_structure("cooha"));
    assert!(is_valid_structure("morin"));
}

#[test]
fn validator_rejects_bad_shapes() {
    assert!(!is_valid_structure(""));
    // "d" may not close a word.
    assert!(!is_valid_structure("ad"));
    // Two consonants may not close a word.
    assert!(!is_valid_structure("amrk"));
    // An unmappable letter fails the conversion, hence the validator.
    assert!(!is_valid_structure("qa"));
}

#[test]
fn unusual_final_consonant_flags_codas() {
    assert!(is_unusual_final_consonant("morin"));
    assert!(!is_unusual_final_consonant("cooha"));
    assert!(!is_unusual_final_consonant(""));
}

#[test]
fn to_manchu_letters_converts_base_and_suffixes() {
    let mut word = Word {
        base: "cooha".to_string(),
        suffixes: None,
        part_of_speech: PartOfSpeech::Noun,
        detail: None,
        emission_cost: 0,
    };
    assert!(word.to_manchu_letters().is_ok());
    assert_eq!(word.base, "ᠴᠣᠣᡥᠠ");

    let words = manchu_morph::split_suffix::generate_all_segmentations("tuwabumbi", vec![]);
    let mut peeled = words[2].clone();
    assert!(peeled.to_manchu_letters().is_ok());
    assert_ne!(peeled.base, "tuwabu");
    assert_ne!(peeled.suffixes.as_ref().unwrap()[0].suffix, "mbi");
}

#[test]
fn to_manchu_letters_surfaces_conversion_failure() {
    // A word-final bare "ts" cannot even be scanned by the converter.
    let mut word = Word {
        base: "bats".to_string(),
        suffixes: None,
        part_of_speech: PartOfSpeech::Noun,
        detail: None,
        emission_cost: 0,
    };
    assert_eq!(word.to_manchu_letters(), Err(MorphError::ConversionError));
    assert_eq!(word.base, "bats");
}

#[test]
fn lattice_to_manchu_letters_converts_every_word() {
    let mut lattice = Lattice::from_sentence("cooha be");
    assert!(lattice.to_manchu_letters().is_ok());
    assert_eq!(lattice.lattice.len(), 2);
    assert_eq!(lattice.lattice[0].0[0].words[0].base, "ᠴᠣᠣᡥᠠ");
    assert_eq!(lattice.lattice[0].0[0].emission_cost, 0);
}

#[test]
fn lattice_to_manchu_letters_fails_atomically() {
    // "bats" ends in a bare "ts" the converter cannot scan; the lattice
    // must come through unchanged.
    let mut lattice = Lattice::from_sentence("bats cooha");
    assert_eq!(lattice.to_manchu_letters(), Err(MorphError::ConversionError));
    assert_eq!(lattice.lattice[0].0[0].words[0].base, "bats");
}
