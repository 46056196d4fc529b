//! A minimal split result: a base and at most one detached suffix surface.

use vstd::prelude::*;

verus! {

/// A word split into a base and an optional suffix surface.
pub struct SplitedWord {
    base: String,
    suffix: Option<String>,
}

/// Mathematical image of a `SplitedWord`.
pub struct SplitedWordV {
    pub base: Seq<char>,
    pub suffix: Option<Seq<char>>,
}

impl View for SplitedWord {
    type V = SplitedWordV;

    closed spec fn view(&self) -> SplitedWordV {
        SplitedWordV { base: self.base@, suffix: self.suffix.deep_view() }
    }
}

impl SplitedWord {
    pub fn new(base: String, suffix: Option<String>) -> (r: SplitedWord)
        ensures
            r@ == (SplitedWordV { base: base@, suffix: suffix.deep_view() }),
    {
        SplitedWord { base, suffix }
    }

    pub fn base(&self) -> (r: &str)
        ensures
            r@ == self@.base,
    {
        self.base.as_str()
    }

    pub fn suffix(&self) -> (r: Option<&str>)
        ensures
            match r {
                Some(s) => self@.suffix == Some(s@),
                None => self@.suffix is None,
            },
    {
        match &self.suffix {
            Some(s) => Some(s.as_str()),
            None => None,
        }
    }
}

} // verus!
