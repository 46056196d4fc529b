//! Tests of lattice construction, the Viterbi pass and path extraction.

use manchu_morph::edge_cost::{EdgeCost, EdgeCostMap};
use manchu_morph::lattice::{Lattice, MorphemeNode, WordNode};
use manchu_morph::word::{Conjugation, PartOfSpeech, Suffix, SuffixRole, Word};

fn plain_word(base: &str, pos: PartOfSpeech) -> Word {
    Word {
        base: base.to_string(),
        suffixes: None,
        part_of_speech: pos,
        detail: None,
        emission_cost: 0,
    }
}

fn plain_node(words: Vec<Word>, emission_cost: i64, category: &str) -> MorphemeNode {
    MorphemeNode {
        words,
        emission_cost,
        path_cost: 0,
        left_node: None,
        category: category.to_string(),
    }
}

fn suffixed_word(base: &str, suffix: &str, conjugation: Conjugation) -> Word {
    Word {
        base: base.to_string(),
        suffixes: Some(vec![Suffix {
            suffix: suffix.to_string(),
            conjugation,
            role: SuffixRole::Functional,
            part_of_speech: PartOfSpeech::Noun,
        }]),
        part_of_speech: PartOfSpeech::Noun,
        detail: None,
        emission_cost: 0,
    }
}

fn create_lattice() -> Lattice {
    let sentence = "cooha be waki seme tumen cooha be unggifi tosoho.";
    let word_node_0 = WordNode(vec![
        plain_node(vec![plain_word("cooha", PartOfSpeech::Noun)], 0, ""),
        plain_node(
            vec![suffixed_word("coo", "ha", Conjugation::PerfectiveParticiple)],
            0,
            "",
        ),
    ]);
    let word_node_1 = WordNode(vec![plain_node(
        vec![plain_word("be", PartOfSpeech::Clitic)],
        0,
        "",
    )]);
    let word_node_2 = WordNode(vec![plain_node(
        vec![plain_word("waki", PartOfSpeech::Noun)],
        0,
        "",
    )]);
    let word_node_3 = WordNode(vec![plain_node(
        vec![plain_word("seme", PartOfSpeech::Noun)],
        0,
        "",
    )]);
    let word_node_4 = WordNode(vec![plain_node(
        vec![plain_word("tumen", PartOfSpeech::Noun)],
        0,
        "",
    )]);
    let word_node_5 = WordNode(vec![
        plain_node(vec![plain_word("cooha", PartOfSpeech::Noun)], 0, ""),
        plain_node(
            vec![suffixed_word("coo", "ha", Conjugation::PerfectiveParticiple)],
            0,
            "",
        ),
    ]);
    let word_node_6 = WordNode(vec![plain_node(
        vec![plain_word("be", PartOfSpeech::Clitic)],
        0,
        "",
    )]);
    let word_node_7 = WordNode(vec![
        plain_node(
            vec![suffixed_word("unggi", "fi", Conjugation::PerfectiveConverb)],
            0,
            "",
        ),
        plain_node(
            vec![suffixed_word("unggi", "fi", Conjugation::PerfectiveConverb)],
            0,
            "",
        ),
    ]);
    let mut one_cost = suffixed_word("to", "so", Conjugation::Plural);
    one_cost.emission_cost = 1;
    let word_node_8 = WordNode(vec![
        plain_node(vec![plain_word("tosoho", PartOfSpeech::Noun)], 0, "0"),
        plain_node(
            vec![suffixed_word("toso", "ho", Conjugation::PerfectiveParticiple)],
            0,
            "",
        ),
        plain_node(vec![one_cost], 1, ""),
    ]);
    Lattice {
        sentence: sentence.to_string(),
        lattice: vec![
            word_node_0,
            word_node_1,
            word_node_2,
            word_node_3,
            word_node_4,
            word_node_5,
            word_node_6,
            word_node_7,
            word_node_8,
        ],
    }
}

#[test]
fn lattice_it_works() {
    let mut lattice = create_lattice();
    lattice.calculate_path_costs();
    assert_eq!(lattice.lattice[8].0.get(0).unwrap().path_cost, 0);
    assert_eq!(lattice.lattice[8].0.get(1).unwrap().path_cost, 0);
}

#[test]
fn test_word_node_from_token() {
    let word_node = WordNode::from_token("niyalmai");
    // Two trivial candidates, then one stem-and-clitic node per stem
    // segmentation (two) and clitic case (two).
    let len = word_node.0.len();
    assert_eq!(len, 6);
    assert_eq!(word_node.0[2].words[0].base, "niyalma");
    assert_eq!(word_node.0[2].words.len(), 2);
    assert_eq!(word_node.0[2].words[1].base, "i");
}

#[test]
fn test_lattice_from_sentence() {
    let lattice = Lattice::from_sentence("cooha be waki seme tumen cooha be unggifi tosoho.");
    let word_node_cooha = &lattice.lattice[0];
    assert_eq!(word_node_cooha.0[0].words[0].base, "cooha");
    assert_eq!(word_node_cooha.0[2].words[0].base, "coo");
    assert_eq!(
        word_node_cooha.0[2].words[0].suffixes.as_ref().unwrap()[0].suffix,
        "ha"
    );
}

#[test]
fn columns_match_tokens() {
    let lattice = Lattice::from_sentence("cooha be waki seme tumen cooha be unggifi tosoho.");
    assert_eq!(lattice.lattice.len(), 9);
    for col in &lattice.lattice {
        assert!(!col.0.is_empty());
    }
    let empty = Lattice::from_sentence("");
    assert_eq!(empty.lattice.len(), 0);
    let spaced = Lattice::from_sentence("  cooha   be ");
    assert_eq!(spaced.lattice.len(), 2);
}

#[test]
fn node_emission_is_word_sum() {
    let lattice = Lattice::from_sentence("niyalmai");
    for node in &lattice.lattice[0].0 {
        let sum: i64 = node.words.iter().map(|w| w.emission_cost).sum();
        assert_eq!(node.emission_cost, sum);
        assert!(!node.words.is_empty());
        assert!(node.left_node.is_none());
        assert_eq!(node.path_cost, 0);
        assert!(!node.category.is_empty());
    }
}

#[test]
fn node_words_cover_token() {
    let lattice = Lattice::from_sentence("niyalmai tuwabumbi be");
    let tokens = ["niyalmai", "tuwabumbi", "be"];
    for (col, token) in lattice.lattice.iter().zip(tokens.iter()) {
        for node in &col.0 {
            let mut rebuilt = String::new();
            for w in &node.words {
                rebuilt.push_str(&w.base);
                if let Some(suffixes) = &w.suffixes {
                    for s in suffixes.iter().rev() {
                        rebuilt.push_str(&s.suffix);
                    }
                }
            }
            assert_eq!(&rebuilt, token);
        }
    }
}

#[test]
fn single_token_best_path() {
    let mut lattice = Lattice::from_sentence("tuwabumbi");
    lattice.calculate_path_costs();
    for node in &lattice.lattice[0].0 {
        assert_eq!(node.path_cost, 0);
        assert!(node.left_node.is_none());
    }
    let path = lattice.get_min_cost_path();
    assert_eq!(path.len(), 1);
}

#[test]
fn nine_token_best_path() {
    let mut lattice = Lattice::from_sentence("cooha be waki seme tumen cooha be unggifi tosoho.");
    lattice.calculate_path_costs();
    let path = lattice.get_min_cost_path();
    assert_eq!(path.len(), 9);
    // Every node of a later column points into the previous column.
    for (i, col) in lattice.lattice.iter().enumerate() {
        for node in &col.0 {
            if i == 0 {
                assert!(node.left_node.is_none());
            } else {
                let row = node.left_node.unwrap();
                assert!(row < lattice.lattice[i - 1].0.len());
            }
        }
    }
}

#[test]
fn solving_twice_changes_nothing() {
    let mut once = Lattice::from_sentence("cooha be waki seme tumen cooha be unggifi tosoho.");
    once.calculate_path_costs();
    let mut twice = Lattice::from_sentence("cooha be waki seme tumen cooha be unggifi tosoho.");
    twice.calculate_path_costs();
    twice.calculate_path_costs();
    assert_eq!(once.lattice.len(), twice.lattice.len());
    for (a, b) in once.lattice.iter().zip(twice.lattice.iter()) {
        assert_eq!(a.0.len(), b.0.len());
        for (na, nb) in a.0.iter().zip(b.0.iter()) {
            assert_eq!(na.path_cost, nb.path_cost);
            assert_eq!(na.left_node, nb.left_node);
        }
    }
}

#[test]
fn edge_costs_steer_the_path() {
    // With a penalty on entering the accusative from a noun, but not from
    // an adverb, the clitic reading of "be" is reached through the adverb;
    // penalising both entries makes the plain noun reading win instead.
    let mut favouring = Lattice::from_sentence("boo be");
    let map_one = EdgeCostMap::from_rows(vec![EdgeCost::new(
        "noun".to_string(),
        "accusative".to_string(),
        10,
    )]);
    favouring.calculate_path_costs_with(&map_one);
    let path = favouring.get_min_cost_path();
    assert_eq!(path.len(), 2);
    assert_eq!(path[1][0].base, "be");
    assert_eq!(path[1][0].part_of_speech, PartOfSpeech::Clitic);
    assert_eq!(path[0][0].part_of_speech, PartOfSpeech::Adverb);

    let mut blocked = Lattice::from_sentence("boo be");
    let map_both = EdgeCostMap::from_rows(vec![
        EdgeCost::new("noun".to_string(), "accusative".to_string(), 10),
        EdgeCost::new("adverb".to_string(), "accusative".to_string(), 10),
    ]);
    blocked.calculate_path_costs_with(&map_both);
    let path = blocked.get_min_cost_path();
    assert_eq!(path.len(), 2);
    assert_eq!(path[1][0].part_of_speech, PartOfSpeech::Noun);
}
