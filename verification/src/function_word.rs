//! The function-word table and the expansion of a function-word token into
//! candidate words, one per listed sense.

use vstd::prelude::*;

use crate::text::str_eq;
use crate::word::{case_of_name, Case, Detail, DetailV, PartOfSpeech, Word, WordV};

verus! {

/// A dictionary entry: a free function word with its part of speech and a
/// list of free-form tags.  For a clitic entry every tag names a case.
#[derive(Clone, Debug)]
pub struct FunctionWord {
    pub entry: String,
    pub part_of_speech: PartOfSpeech,
    pub details: Vec<String>,
}

/// Mathematical image of a `FunctionWord`.
pub struct FunctionWordV {
    pub entry: Seq<char>,
    pub part_of_speech: PartOfSpeech,
    pub details: Seq<Seq<char>>,
}

impl View for FunctionWord {
    type V = FunctionWordV;

    open spec fn view(&self) -> FunctionWordV {
        FunctionWordV {
            entry: self.entry@,
            part_of_speech: self.part_of_speech,
            details: self.details.deep_view(),
        }
    }
}

impl DeepView for FunctionWord {
    type V = FunctionWordV;

    open spec fn deep_view(&self) -> FunctionWordV {
        self.view()
    }
}

/// The function-word table.  Clitic entries list the cases their surface
/// can mark; other entries carry free-form sense tags.
pub open spec fn function_word_table_spec() -> Seq<FunctionWordV> {
    seq![
        FunctionWordV {
            entry: "be"@,
            part_of_speech: PartOfSpeech::Clitic,
            details: seq!["accusative"@],
        },
        FunctionWordV {
            entry: "i"@,
            part_of_speech: PartOfSpeech::Clitic,
            details: seq!["genitive"@, "nominative"@],
        },
        FunctionWordV {
            entry: "de"@,
            part_of_speech: PartOfSpeech::Clitic,
            details: seq!["dative_locative"@],
        },
        FunctionWordV {
            entry: "ci"@,
            part_of_speech: PartOfSpeech::Clitic,
            details: seq!["instrumental"@],
        },
        FunctionWordV {
            entry: "geli"@,
            part_of_speech: PartOfSpeech::Adverb,
            details: seq!["also"@],
        },
        FunctionWordV {
            entry: "ai"@,
            part_of_speech: PartOfSpeech::Unknown,
            details: seq!["what"@],
        },
    ]
}

fn make_function_word(entry: &str, part_of_speech: PartOfSpeech, details: Vec<String>) -> (r:
    FunctionWord)
    ensures
        r@ == (FunctionWordV {
            entry: entry@,
            part_of_speech,
            details: details.deep_view(),
        }),
{
    FunctionWord { entry: String::from_str(entry), part_of_speech, details }
}

/// The function-word table as an in-memory vector.
pub fn get_function_word_list() -> (r: Vec<FunctionWord>)
    ensures
        r.deep_view() == function_word_table_spec(),
{
    let mut t: Vec<FunctionWord> = Vec::new();
    let mut d: Vec<String> = Vec::new();
    d.push(String::from_str("accusative"));
    t.push(make_function_word("be", PartOfSpeech::Clitic, d));
    let mut d: Vec<String> = Vec::new();
    d.push(String::from_str("genitive"));
    d.push(String::from_str("nominative"));
    t.push(make_function_word("i", PartOfSpeech::Clitic, d));
    let mut d: Vec<String> = Vec::new();
    d.push(String::from_str("dative_locative"));
    t.push(make_function_word("de", PartOfSpeech::Clitic, d));
    let mut d: Vec<String> = Vec::new();
    d.push(String::from_str("instrumental"));
    t.push(make_function_word("ci", PartOfSpeech::Clitic, d));
    let mut d: Vec<String> = Vec::new();
    d.push(String::from_str("also"));
    t.push(make_function_word("geli", PartOfSpeech::Adverb, d));
    let mut d: Vec<String> = Vec::new();
    d.push(String::from_str("what"));
    t.push(make_function_word("ai", PartOfSpeech::Unknown, d));
    proof {
        assert(t.deep_view()[0].details =~= function_word_table_spec()[0].details);
        assert(t.deep_view()[1].details =~= function_word_table_spec()[1].details);
        assert(t.deep_view()[2].details =~= function_word_table_spec()[2].details);
        assert(t.deep_view()[3].details =~= function_word_table_spec()[3].details);
        assert(t.deep_view()[4].details =~= function_word_table_spec()[4].details);
        assert(t.deep_view()[5].details =~= function_word_table_spec()[5].details);
        assert(t.deep_view() =~= function_word_table_spec());
    }
    t
}

/// The first table entry whose surface equals the token, from index `i` on.
pub open spec fn lookup_from(t: Seq<FunctionWordV>, s: Seq<char>, i: int) -> Option<FunctionWordV>
    decreases t.len() - i,
{
    if i < 0 || i >= t.len() {
        None
    } else if t[i].entry == s {
        Some(t[i])
    } else {
        lookup_from(t, s, i + 1)
    }
}

/// The function-word entry for a token, when the token is one.
pub open spec fn lookup_spec(s: Seq<char>) -> Option<FunctionWordV> {
    lookup_from(function_word_table_spec(), s, 0)
}

/// A found function-word entry has the token as its surface.
pub proof fn lemma_lookup_props(t: Seq<FunctionWordV>, s: Seq<char>, i: int)
    ensures
        match lookup_from(t, s, i) {
            Some(f) => f.entry == s,
            None => true,
        },
    decreases t.len() - i,
{
    if i < 0 || i >= t.len() {
    } else if t[i].entry == s {
    } else {
        lemma_lookup_props(t, s, i + 1);
    }
}

/// Every tag of a detail list names a case.
pub open spec fn all_cases_parse(details: Seq<Seq<char>>) -> bool {
    forall|i: int| 0 <= i < details.len() ==> case_of_name(#[trigger] details[i]) is Some
}

/// The candidate word for one case sense of a clitic surface.
pub open spec fn case_word(entry: Seq<char>, c: Case) -> WordV {
    WordV {
        base: entry,
        suffixes: None,
        part_of_speech: PartOfSpeech::Clitic,
        detail: Some(DetailV::Case(c)),
        emission_cost: -1,
    }
}

/// The candidate word for one free-form sense of a function word.
pub open spec fn other_word(entry: Seq<char>, tag: Seq<char>, pos: PartOfSpeech) -> WordV {
    WordV {
        base: entry,
        suffixes: None,
        part_of_speech: pos,
        detail: Some(DetailV::Other(tag)),
        emission_cost: -1,
    }
}

/// The case words of a clitic entry, one per listed case, in order.
pub open spec fn clitic_case_words(f: FunctionWordV) -> Seq<WordV> {
    Seq::new(f.details.len(), |i: int| case_word(f.entry, case_of_name(f.details[i]).unwrap()))
}

/// The expansion of a function-word entry: one word per parsed case for a
/// clitic, one word per sense tag otherwise.  A clitic entry with an
/// unparseable case tag expands to nothing.
pub open spec fn expand_spec(f: FunctionWordV) -> Seq<WordV> {
    if f.part_of_speech == PartOfSpeech::Clitic {
        if all_cases_parse(f.details) {
            clitic_case_words(f)
        } else {
            seq![]
        }
    } else {
        Seq::new(f.details.len(), |i: int| other_word(f.entry, f.details[i], f.part_of_speech))
    }
}

/// Decide whether every tag of a detail list names a case.
pub fn details_all_cases(details: &Vec<String>) -> (r: bool)
    ensures
        r == all_cases_parse(details.deep_view()),
{
    let n = details.len();
    let mut i: usize = 0;
    while i < n
        invariant
            0 <= i <= n,
            n == details.deep_view().len(),
            n == details@.len(),
            forall|j: int|
                0 <= j < i ==> case_of_name(#[trigger] details.deep_view()[j]) is Some,
        decreases n - i,
    {
        proof {
            assert(details.deep_view()[i as int] == details@[i as int]@);
        }
        match Case::from_name(details[i].as_str()) {
            Some(_) => {},
            None => {
                return false;
            },
        }
        i += 1;
    }
    true
}

impl FunctionWord {
    /// Find the function-word entry whose surface equals the token.
    pub fn lookup(token: &str) -> (r: Option<FunctionWord>)
        ensures
            match r {
                Some(f) => lookup_spec(token@) == Some(f@),
                None => lookup_spec(token@) is None,
            },
    {
        let mut table = get_function_word_list();
        let ghost tspec = function_word_table_spec();
        let n = table.len();
        let mut i: usize = 0;
        while i < n
            invariant
                0 <= i <= n,
                n == tspec.len(),
                tspec == function_word_table_spec(),
                table.deep_view() == tspec,
                lookup_from(tspec, token@, 0) == lookup_from(tspec, token@, i as int),
            decreases n - i,
        {
            proof {
                assert(table.deep_view()[i as int] == table@[i as int]@);
            }
            if str_eq(table[i].entry.as_str(), token) {
                let ghost tv = table.deep_view();
                let f = table.swap_remove(i);
                proof {
                    assert(f@ == tv[i as int]);
                    assert(lookup_from(tspec, token@, i as int) == Some(tspec[i as int]));
                }
                return Some(f);
            }
            i += 1;
        }
        None
    }

    /// Expand this entry into its candidate words, one per sense.
    pub fn to_words(&self) -> (r: Vec<Word>)
        ensures
            r.deep_view() == expand_spec(self@),
    {
        let mut out: Vec<Word> = Vec::new();
        let n = self.details.len();
        let is_clitic = matches!(self.part_of_speech, PartOfSpeech::Clitic);
        proof {
            assert(is_clitic == (self@.part_of_speech == PartOfSpeech::Clitic));
        }
        if is_clitic {
            let mut i: usize = 0;
            while i < n
                invariant
                    0 <= i <= n,
                    n == self@.details.len(),
                    self@.part_of_speech == PartOfSpeech::Clitic,
                    out.deep_view() =~= Seq::<WordV>::empty(),
                    forall|j: int|
                        0 <= j < i ==> case_of_name(#[trigger] self@.details[j]) is Some,
                decreases n - i,
            {
                proof {
                    assert(self.details.deep_view()[i as int] == self.details@[i as int]@);
                }
                match Case::from_name(self.details[i].as_str()) {
                    Some(_) => {},
                    None => {
                        proof {
                            assert(!all_cases_parse(self@.details));
                            assert(expand_spec(self@) =~= Seq::<WordV>::empty());
                        }
                        return out;
                    },
                }
                i += 1;
            }
            proof {
                assert(all_cases_parse(self@.details));
            }
            let mut i: usize = 0;
            while i < n
                invariant
                    0 <= i <= n,
                    n == self@.details.len(),
                    self@.part_of_speech == PartOfSpeech::Clitic,
                    all_cases_parse(self@.details),
                    out.deep_view() =~= clitic_case_words(self@).subrange(0, i as int),
                decreases n - i,
            {
                proof {
                    assert(self.details.deep_view()[i as int] == self.details@[i as int]@);
                }
                let ghost out0 = out.deep_view();
                match Case::from_name(self.details[i].as_str()) {
                    Some(c) => {
                        out.push(
                            Word {
                                base: self.entry.clone(),
                                suffixes: None,
                                part_of_speech: PartOfSpeech::Clitic,
                                detail: Some(Detail::Case(c)),
                                emission_cost: -1,
                            },
                        );
                        proof {
                            assert(out.deep_view() =~= out0.push(
                                case_word(self@.entry, c),
                            ));
                            assert(out.deep_view() =~= clitic_case_words(self@).subrange(
                                0,
                                i as int + 1,
                            ));
                        }
                    },
                    None => {
                        proof {
                            assert(false);
                        }
                    },
                }
                i += 1;
            }
            proof {
                assert(clitic_case_words(self@).subrange(0, n as int) =~= clitic_case_words(
                    self@,
                ));
            }
            out
        } else {
            let mut i: usize = 0;
            while i < n
                invariant
                    0 <= i <= n,
                    n == self@.details.len(),
                    !(self@.part_of_speech == PartOfSpeech::Clitic),
                    out.deep_view() =~= expand_spec(self@).subrange(0, i as int),
                decreases n - i,
            {
                proof {
                    assert(self.details.deep_view()[i as int] == self.details@[i as int]@);
                }
                let ghost out0 = out.deep_view();
                out.push(
                    Word {
                        base: self.entry.clone(),
                        suffixes: None,
                        part_of_speech: self.part_of_speech,
                        detail: Some(Detail::Other(self.details[i].clone())),
                        emission_cost: -1,
                    },
                );
                proof {
                    assert(out.deep_view() =~= out0.push(
                        other_word(self@.entry, self@.details[i as int], self@.part_of_speech),
                    ));
                    assert(out.deep_view() =~= expand_spec(self@).subrange(0, i as int + 1));
                }
                i += 1;
            }
            proof {
                assert(expand_spec(self@).subrange(0, n as int) =~= expand_spec(self@));
            }
            out
        }
    }
}

} // verus!
