//! The data model: suffixes, cases, parts of speech, details, and the
//! morpheme record `Word`.

use vstd::prelude::*;

verus! {

/// Role a suffix plays when attached to its host.
#[derive(Clone, Copy, Debug, PartialEq, Eq, Structural)]
pub enum SuffixRole {
    Functional,
    Derivational,
    Deverbal,
    DenominalAdjective,
}

/// The inflectional category a suffix imposes on its host.
#[derive(Clone, Copy, Debug, PartialEq, Eq, Structural)]
pub enum Conjugation {
    PerfectiveFinite,
    PerfectiveConverb,
    PerfectiveParticiple,
    PerfectiveProcessiveParticiple,
    ImperfectiveFinite,
    ImperfectiveConverb,
    NegativePerfectiveFinite,
    NegativePerfectiveConverb,
    NegativeParticle,
    ProspectiveFinite,
    DesiderativeFinite,
    OptativeFinite,
    DurativeConverb,
    ConditionalConverb,
    ConcessiveConverb,
    TerminativeConverb,
    PrefactoryConverb,
    ApprehensiveConverb,
    SimultaneousConverb,
    AlternativeConverb,
    DenominalAdjective,
    PassiveCausativeVerbal,
    Plural,
}

/// Grammatical case carried by a clitic.
#[derive(Clone, Copy, Debug, PartialEq, Eq, Structural)]
pub enum Case {
    Nominative,
    Accusative,
    Genitive,
    DativeLocative,
    Instrumental,
    Vocative,
}

/// Part of speech of a word or of the host a suffix demands.
#[derive(Clone, Copy, Debug, PartialEq, Eq, Structural)]
pub enum PartOfSpeech {
    Noun,
    Verb,
    Clitic,
    Adverb,
    Unknown,
}

/// Extra grammatical information on a word: a conjugation for an inflected
/// form, a case for a clitic, or a free-form tag for a function word.
#[derive(Clone, Debug)]
pub enum Detail {
    Conjugation(Conjugation),
    Case(Case),
    Other(String),
}

/// Mathematical image of a `Detail`: the tag string becomes a `Seq<char>`.
pub enum DetailV {
    Conjugation(Conjugation),
    Case(Case),
    Other(Seq<char>),
}

impl View for Detail {
    type V = DetailV;

    open spec fn view(&self) -> DetailV {
        match self {
            Detail::Conjugation(c) => DetailV::Conjugation(*c),
            Detail::Case(k) => DetailV::Case(*k),
            Detail::Other(t) => DetailV::Other(t@),
        }
    }
}

impl DeepView for Detail {
    type V = DetailV;

    open spec fn deep_view(&self) -> DetailV {
        self.view()
    }
}

/// A bound morpheme of the suffix table.
#[derive(Clone, Debug)]
pub struct Suffix {
    /// Surface form, e.g. "mbi", "ha" or "bu".
    pub suffix: String,
    /// Conjugation the suffix imposes on its host.
    pub conjugation: Conjugation,
    /// Role of the suffix; "mbi" is functional, "bu" derivational.
    pub role: SuffixRole,
    /// Part of speech the suffix demands on its left.
    pub part_of_speech: PartOfSpeech,
}

/// Mathematical image of a `Suffix`.
pub struct SuffixV {
    pub suffix: Seq<char>,
    pub conjugation: Conjugation,
    pub role: SuffixRole,
    pub part_of_speech: PartOfSpeech,
}

impl View for Suffix {
    type V = SuffixV;

    open spec fn view(&self) -> SuffixV {
        SuffixV {
            suffix: self.suffix@,
            conjugation: self.conjugation,
            role: self.role,
            part_of_speech: self.part_of_speech,
        }
    }
}

impl DeepView for Suffix {
    type V = SuffixV;

    open spec fn deep_view(&self) -> SuffixV {
        self.view()
    }
}

impl Suffix {
    pub fn new(
        suffix: String,
        conjugation: Conjugation,
        role: SuffixRole,
        part_of_speech: PartOfSpeech,
    ) -> (r: Suffix)
        ensures
            r@ == (SuffixV { suffix: suffix@, conjugation, role, part_of_speech }),
    {
        Suffix { suffix, conjugation, role, part_of_speech }
    }
}

/// One analyzed morpheme: a stem with the suffixes peeled off it.
#[derive(Clone, Debug)]
pub struct Word {
    /// Stem left after peeling; the whole token when nothing was peeled.
    pub base: String,
    /// Peeled suffixes, outermost first: "tuwabumbi" gives "mbi", "bu".
    pub suffixes: Option<Vec<Suffix>>,
    pub part_of_speech: PartOfSpeech,
    /// Conjugation for an inflected form, case for a clitic, tag otherwise.
    pub detail: Option<Detail>,
    /// Additive preference for this analysis; more peels cost less.
    pub emission_cost: i64,
}

/// Mathematical image of a `Word`.
pub struct WordV {
    pub base: Seq<char>,
    pub suffixes: Option<Seq<SuffixV>>,
    pub part_of_speech: PartOfSpeech,
    pub detail: Option<DetailV>,
    pub emission_cost: int,
}

impl View for Word {
    type V = WordV;

    open spec fn view(&self) -> WordV {
        WordV {
            base: self.base@,
            suffixes: self.suffixes.deep_view(),
            part_of_speech: self.part_of_speech,
            detail: self.detail.deep_view(),
            emission_cost: self.emission_cost as int,
        }
    }
}

impl DeepView for Word {
    type V = WordV;

    open spec fn deep_view(&self) -> WordV {
        self.view()
    }
}

/// What went wrong during an analysis step.
#[derive(Clone, Copy, Debug, PartialEq, Eq, Structural)]
pub enum MorphError {
    /// A splitter was invoked on an empty string.
    EmptyInput,
    /// A splitter was invoked on whitespace only.
    WhitespaceOnly,
    /// No case clitic matches the end of the token.
    NoCliticMatch,
    /// The native-script conversion rejected the text.
    ConversionError,
}

/// Display name of a conjugation, in snake case; used as a lattice category.
pub open spec fn conjugation_name(c: Conjugation) -> Seq<char> {
    match c {
        Conjugation::PerfectiveFinite => "perfective_finite"@,
        Conjugation::PerfectiveConverb => "perfective_converb"@,
        Conjugation::PerfectiveParticiple => "perfective_participle"@,
        Conjugation::PerfectiveProcessiveParticiple => "perfective_processive_participle"@,
        Conjugation::ImperfectiveFinite => "imperfective_finite"@,
        Conjugation::ImperfectiveConverb => "imperfective_converb"@,
        Conjugation::NegativePerfectiveFinite => "negative_perfective_finite"@,
        Conjugation::NegativePerfectiveConverb => "negative_perfective_converb"@,
        Conjugation::NegativeParticle => "negative_particle"@,
        Conjugation::ProspectiveFinite => "prospective_finite"@,
        Conjugation::DesiderativeFinite => "desiderative_finite"@,
        Conjugation::OptativeFinite => "optative_finite"@,
        Conjugation::DurativeConverb => "durative_converb"@,
        Conjugation::ConditionalConverb => "conditional_converb"@,
        Conjugation::ConcessiveConverb => "concessive_converb"@,
        Conjugation::TerminativeConverb => "terminative_converb"@,
        Conjugation::PrefactoryConverb => "prefactory_converb"@,
        Conjugation::ApprehensiveConverb => "apprehensive_converb"@,
        Conjugation::SimultaneousConverb => "simultaneous_converb"@,
        Conjugation::AlternativeConverb => "alternative_converb"@,
        Conjugation::DenominalAdjective => "denominal_adjective"@,
        Conjugation::PassiveCausativeVerbal => "passive_causative_verbal"@,
        Conjugation::Plural => "plural"@,
    }
}

/// Display name of a case, in snake case.
pub open spec fn case_name(k: Case) -> Seq<char> {
    match k {
        Case::Nominative => "nominative"@,
        Case::Accusative => "accusative"@,
        Case::Genitive => "genitive"@,
        Case::DativeLocative => "dative_locative"@,
        Case::Instrumental => "instrumental"@,
        Case::Vocative => "vocative"@,
    }
}

/// Display name of a part of speech, in snake case.
pub open spec fn pos_name(p: PartOfSpeech) -> Seq<char> {
    match p {
        PartOfSpeech::Noun => "noun"@,
        PartOfSpeech::Verb => "verb"@,
        PartOfSpeech::Clitic => "clitic"@,
        PartOfSpeech::Adverb => "adverb"@,
        PartOfSpeech::Unknown => "unknown"@,
    }
}

/// Display name of a suffix role, in snake case.
pub open spec fn role_name(r: SuffixRole) -> Seq<char> {
    match r {
        SuffixRole::Functional => "functional"@,
        SuffixRole::Derivational => "derivational"@,
        SuffixRole::Deverbal => "deverbal"@,
        SuffixRole::DenominalAdjective => "denominal_adjective"@,
    }
}

/// Parsing a case name, tried in declaration order.
pub open spec fn case_of_name(s: Seq<char>) -> Option<Case> {
    if s == "nominative"@ {
        Some(Case::Nominative)
    } else if s == "accusative"@ {
        Some(Case::Accusative)
    } else if s == "genitive"@ {
        Some(Case::Genitive)
    } else if s == "dative_locative"@ {
        Some(Case::DativeLocative)
    } else if s == "instrumental"@ {
        Some(Case::Instrumental)
    } else if s == "vocative"@ {
        Some(Case::Vocative)
    } else {
        None
    }
}

impl Conjugation {
    pub fn name(&self) -> (r: String)
        ensures
            r@ == conjugation_name(*self),
    {
        match self {
            Conjugation::PerfectiveFinite => String::from_str("perfective_finite"),
            Conjugation::PerfectiveConverb => String::from_str("perfective_converb"),
            Conjugation::PerfectiveParticiple => String::from_str("perfective_participle"),
            Conjugation::PerfectiveProcessiveParticiple => String::from_str(
                "perfective_processive_participle",
            ),
            Conjugation::ImperfectiveFinite => String::from_str("imperfective_finite"),
            Conjugation::ImperfectiveConverb => String::from_str("imperfective_converb"),
            Conjugation::NegativePerfectiveFinite => String::from_str(
                "negative_perfective_finite",
            ),
            Conjugation::NegativePerfectiveConverb => String::from_str(
                "negative_perfective_converb",
            ),
            Conjugation::NegativeParticle => String::from_str("negative_particle"),
            Conjugation::ProspectiveFinite => String::from_str("prospective_finite"),
            Conjugation::DesiderativeFinite => String::from_str("desiderative_finite"),
            Conjugation::OptativeFinite => String::from_str("optative_finite"),
            Conjugation::DurativeConverb => String::from_str("durative_converb"),
            Conjugation::ConditionalConverb => String::from_str("conditional_converb"),
            Conjugation::ConcessiveConverb => String::from_str("concessive_converb"),
            Conjugation::TerminativeConverb => String::from_str("terminative_converb"),
            Conjugation::PrefactoryConverb => String::from_str("prefactory_converb"),
            Conjugation::ApprehensiveConverb => String::from_str("apprehensive_converb"),
            Conjugation::SimultaneousConverb => String::from_str("simultaneous_converb"),
            Conjugation::AlternativeConverb => String::from_str("alternative_converb"),
            Conjugation::DenominalAdjective => String::from_str("denominal_adjective"),
            Conjugation::PassiveCausativeVerbal => String::from_str("passive_causative_verbal"),
            Conjugation::Plural => String::from_str("plural"),
        }
    }
}

impl Case {
    pub fn name(&self) -> (r: String)
        ensures
            r@ == case_name(*self),
    {
        match self {
            Case::Nominative => String::from_str("nominative"),
            Case::Accusative => String::from_str("accusative"),
            Case::Genitive => String::from_str("genitive"),
            Case::DativeLocative => String::from_str("dative_locative"),
            Case::Instrumental => String::from_str("instrumental"),
            Case::Vocative => String::from_str("vocative"),
        }
    }

    /// Parse a case display name back into the enumeration.
    pub fn from_name(s: &str) -> (r: Option<Case>)
        ensures
            r == case_of_name(s@),
    {
        if crate::text::str_eq(s, "nominative") {
            Some(Case::Nominative)
        } else if crate::text::str_eq(s, "accusative") {
            Some(Case::Accusative)
        } else if crate::text::str_eq(s, "genitive") {
            Some(Case::Genitive)
        } else if crate::text::str_eq(s, "dative_locative") {
            Some(Case::DativeLocative)
        } else if crate::text::str_eq(s, "instrumental") {
            Some(Case::Instrumental)
        } else if crate::text::str_eq(s, "vocative") {
            Some(Case::Vocative)
        } else {
            None
        }
    }
}

impl PartOfSpeech {
    pub fn name(&self) -> (r: String)
        ensures
            r@ == pos_name(*self),
    {
        match self {
            PartOfSpeech::Noun => String::from_str("noun"),
            PartOfSpeech::Verb => String::from_str("verb"),
            PartOfSpeech::Clitic => String::from_str("clitic"),
            PartOfSpeech::Adverb => String::from_str("adverb"),
            PartOfSpeech::Unknown => String::from_str("unknown"),
        }
    }
}

impl SuffixRole {
    pub fn name(&self) -> (r: String)
        ensures
            r@ == role_name(*self),
    {
        match self {
            SuffixRole::Functional => String::from_str("functional"),
            SuffixRole::Derivational => String::from_str("derivational"),
            SuffixRole::Deverbal => String::from_str("deverbal"),
            SuffixRole::DenominalAdjective => String::from_str("denominal_adjective"),
        }
    }
}

/// The number of suffixes carried by a word view, for the emission cost.
pub open spec fn suffix_count(suffixes: Option<Seq<SuffixV>>) -> int {
    match suffixes {
        Some(s) => s.len() as int,
        None => 0,
    }
}

/// Duplicate a suffix; the copy has the same view.
pub fn dup_suffix(s: &Suffix) -> (r: Suffix)
    ensures
        r@ == s@,
{
    Suffix {
        suffix: s.suffix.clone(),
        conjugation: s.conjugation,
        role: s.role,
        part_of_speech: s.part_of_speech,
    }
}

/// Duplicate a suffix list; the copy has the same view.
pub fn dup_suffixes(v: &Vec<Suffix>) -> (r: Vec<Suffix>)
    ensures
        r.deep_view() == v.deep_view(),
{
    let mut out: Vec<Suffix> = Vec::new();
    let mut i: usize = 0;
    while i < v.len()
        invariant
            0 <= i <= v@.len(),
            out.deep_view() =~= v.deep_view().subrange(0, i as int),
        decreases v@.len() - i,
    {
        let ghost old_dv = out.deep_view();
        let d = dup_suffix(&v[i]);
        proof {
            assert(d@ == v.deep_view()[i as int]);
        }
        out.push(d);
        proof {
            assert(out.deep_view() =~= old_dv.push(d@));
            assert(old_dv.push(d@) =~= v.deep_view().subrange(0, i as int + 1));
        }
        i += 1;
    }
    proof {
        assert(v.deep_view().subrange(0, v@.len() as int) =~= v.deep_view());
    }
    out
}

/// Duplicate a detail; the copy has the same view.
pub fn dup_detail(d: &Detail) -> (r: Detail)
    ensures
        r@ == d@,
{
    match d {
        Detail::Conjugation(c) => Detail::Conjugation(*c),
        Detail::Case(k) => Detail::Case(*k),
        Detail::Other(t) => Detail::Other(t.clone()),
    }
}

/// Duplicate a word; the copy has the same view.
pub fn dup_word(w: &Word) -> (r: Word)
    ensures
        r@ == w@,
{
    let suffixes = match &w.suffixes {
        Some(s) => Some(dup_suffixes(s)),
        None => None,
    };
    let detail = match &w.detail {
        Some(d) => Some(dup_detail(d)),
        None => None,
    };
    Word {
        base: w.base.clone(),
        suffixes,
        part_of_speech: w.part_of_speech,
        detail,
        emission_cost: w.emission_cost,
    }
}

/// Duplicate a word list; the copy has the same view.
pub fn dup_words(v: &Vec<Word>) -> (r: Vec<Word>)
    ensures
        r.deep_view() == v.deep_view(),
{
    let mut out: Vec<Word> = Vec::new();
    let mut i: usize = 0;
    while i < v.len()
        invariant
            0 <= i <= v@.len(),
            out.deep_view() =~= v.deep_view().subrange(0, i as int),
        decreases v@.len() - i,
    {
        let ghost old_dv = out.deep_view();
        let d = dup_word(&v[i]);
        proof {
            assert(d@ == v.deep_view()[i as int]);
        }
        out.push(d);
        proof {
            assert(out.deep_view() =~= old_dv.push(d@));
            assert(old_dv.push(d@) =~= v.deep_view().subrange(0, i as int + 1));
        }
        i += 1;
    }
    proof {
        assert(v.deep_view().subrange(0, v@.len() as int) =~= v.deep_view());
    }
    out
}

impl Word {
    /// Build a word; the emission cost is minus five per peeled suffix.
    pub fn new(
        base: String,
        suffixes: Option<Vec<Suffix>>,
        part_of_speech: PartOfSpeech,
        detail: Option<Detail>,
    ) -> (r: Word)
        requires
            suffix_count(suffixes.deep_view()) <= 0x4000_0000,
        ensures
            r@ == (WordV {
                base: base@,
                suffixes: suffixes.deep_view(),
                part_of_speech,
                detail: detail.deep_view(),
                emission_cost: -5 * suffix_count(suffixes.deep_view()),
            }),
    {
        let emission_cost: i64 = match &suffixes {
            Some(s) => -5 * (s.len() as i64),
            None => 0,
        };
        Word { base, suffixes, part_of_speech, detail, emission_cost }
    }
}

} // verus!
