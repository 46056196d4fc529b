//! Character-level utilities: equality and suffix tests on `&str`, and
//! whitespace tokenization of a sentence.

use vstd::prelude::*;

verus! {

/// Whitespace for tokenization: the ASCII space-like characters.
pub open spec fn is_space_char(c: char) -> bool {
    c == ' ' || c == '\t' || c == '\n' || c == '\r'
}

/// A string has content when at least one character is not whitespace.
pub open spec fn has_content(s: Seq<char>) -> bool {
    exists|i: int| 0 <= i < s.len() && !is_space_char(s[i])
}

/// One string ends with another.
pub open spec fn ends_with(s: Seq<char>, suffix: Seq<char>) -> bool {
    suffix.len() <= s.len() && s.subrange(s.len() - suffix.len(), s.len() as int) == suffix
}

pub fn char_is_space(c: char) -> (r: bool)
    ensures
        r == is_space_char(c),
{
    c == ' ' || c == '\t' || c == '\n' || c == '\r'
}

pub fn str_has_content(s: &str) -> (r: bool)
    ensures
        r == has_content(s@),
{
    let n = s.unicode_len();
    let mut i: usize = 0;
    while i < n
        invariant
            0 <= i <= n,
            n == s@.len(),
            forall|j: int| 0 <= j < i ==> is_space_char(s@[j]),
        decreases n - i,
    {
        if !char_is_space(s.get_char(i)) {
            return true;
        }
        i += 1;
    }
    false
}

pub fn str_eq(a: &str, b: &str) -> (r: bool)
    ensures
        r == (a@ == b@),
{
    let na = a.unicode_len();
    let nb = b.unicode_len();
    if na != nb {
        return false;
    }
    let mut i: usize = 0;
    while i < na
        invariant
            0 <= i <= na,
            na == a@.len(),
            na == b@.len(),
            forall|j: int| 0 <= j < i ==> a@[j] == b@[j],
        decreases na - i,
    {
        if a.get_char(i) != b.get_char(i) {
            return false;
        }
        i += 1;
    }
    proof {
        assert(a@ =~= b@);
    }
    true
}

pub fn str_ends_with(s: &str, suffix: &str) -> (r: bool)
    ensures
        r == ends_with(s@, suffix@),
{
    let n = s.unicode_len();
    let m = suffix.unicode_len();
    if m > n {
        return false;
    }
    let start = n - m;
    let mut i: usize = 0;
    while i < m
        invariant
            0 <= i <= m,
            m <= n,
            start == n - m,
            n == s@.len(),
            m == suffix@.len(),
            forall|j: int| 0 <= j < i ==> s@[start + j] == suffix@[j],
        decreases m - i,
    {
        if s.get_char(start + i) != suffix.get_char(i) {
            proof {
                assert(s@.subrange(s@.len() - suffix@.len(), s@.len() as int)[i as int] == s@[start
                    + i]);
            }
            return false;
        }
        i += 1;
    }
    proof {
        assert(s@.subrange(s@.len() - suffix@.len(), s@.len() as int) =~= suffix@);
    }
    true
}

/// Splitting on whitespace, carried out character by character with the
/// current partial token as accumulator.
pub open spec fn split_ws_acc(s: Seq<char>, cur: Seq<char>) -> Seq<Seq<char>>
    decreases s.len(),
{
    if s.len() == 0 {
        if cur.len() == 0 {
            seq![]
        } else {
            seq![cur]
        }
    } else if is_space_char(s[0]) {
        if cur.len() == 0 {
            split_ws_acc(s.drop_first(), seq![])
        } else {
            seq![cur] + split_ws_acc(s.drop_first(), seq![])
        }
    } else {
        split_ws_acc(s.drop_first(), cur.push(s[0]))
    }
}

/// The whitespace-delimited tokens of a sentence, in order.
pub open spec fn split_ws(s: Seq<char>) -> Seq<Seq<char>> {
    split_ws_acc(s, seq![])
}

/// A well-formed token: non-empty and free of whitespace.
pub open spec fn token_wf(t: Seq<char>) -> bool {
    t.len() > 0 && forall|k: int| 0 <= k < t.len() ==> !is_space_char(t[k])
}

pub open spec fn tokens_wf(ts: Seq<Seq<char>>) -> bool {
    forall|j: int| 0 <= j < ts.len() ==> token_wf(#[trigger] ts[j])
}

/// Every token of a whitespace split is non-empty and free of whitespace.
pub proof fn lemma_split_ws_acc_tokens(s: Seq<char>, cur: Seq<char>)
    requires
        forall|k: int| 0 <= k < cur.len() ==> !is_space_char(cur[k]),
    ensures
        tokens_wf(split_ws_acc(s, cur)),
    decreases s.len(),
{
    let ts = split_ws_acc(s, cur);
    if s.len() == 0 {
        if cur.len() > 0 {
            assert(token_wf(cur));
            assert forall|j: int| 0 <= j < ts.len() implies token_wf(#[trigger] ts[j]) by {
                assert(ts[j] == cur);
            }
        }
    } else if is_space_char(s[0]) {
        lemma_split_ws_acc_tokens(s.drop_first(), seq![]);
        let rec = split_ws_acc(s.drop_first(), seq![]);
        if cur.len() > 0 {
            assert(ts == seq![cur] + rec);
            assert(token_wf(cur));
            assert forall|j: int| 0 <= j < ts.len() implies token_wf(#[trigger] ts[j]) by {
                if j == 0 {
                    assert(ts[0] == cur);
                } else {
                    assert(ts[j] == rec[j - 1]);
                }
            }
        }
    } else {
        let cur2 = cur.push(s[0]);
        assert forall|k: int| 0 <= k < cur2.len() implies !is_space_char(cur2[k]) by {
            if k < cur.len() {
                assert(cur2[k] == cur[k]);
            } else {
                assert(cur2[k] == s[0]);
            }
        }
        lemma_split_ws_acc_tokens(s.drop_first(), cur2);
    }
}

/// No token of a whitespace split outgrows the text it came from.
pub proof fn lemma_split_ws_acc_token_len(s: Seq<char>, cur: Seq<char>)
    ensures
        forall|j: int|
            0 <= j < split_ws_acc(s, cur).len() ==> (#[trigger] split_ws_acc(s, cur)[j]).len()
                <= cur.len() + s.len(),
    decreases s.len(),
{
    let ts = split_ws_acc(s, cur);
    if s.len() == 0 {
        if cur.len() > 0 {
            assert forall|j: int| 0 <= j < ts.len() implies (#[trigger] ts[j]).len() <= cur.len()
                + s.len() by {
                assert(ts[j] == cur);
            }
        }
    } else if is_space_char(s[0]) {
        lemma_split_ws_acc_token_len(s.drop_first(), seq![]);
        let rec = split_ws_acc(s.drop_first(), seq![]);
        if cur.len() > 0 {
            assert forall|j: int| 0 <= j < ts.len() implies (#[trigger] ts[j]).len() <= cur.len()
                + s.len() by {
                if j == 0 {
                    assert(ts[0] == cur);
                } else {
                    assert(ts[j] == rec[j - 1]);
                }
            }
        } else {
            assert forall|j: int| 0 <= j < ts.len() implies (#[trigger] ts[j]).len() <= cur.len()
                + s.len() by {
                assert(ts[j] == rec[j]);
            }
        }
    } else {
        let cur2 = cur.push(s[0]);
        lemma_split_ws_acc_token_len(s.drop_first(), cur2);
        let rec = split_ws_acc(s.drop_first(), cur2);
        assert forall|j: int| 0 <= j < ts.len() implies (#[trigger] ts[j]).len() <= cur.len()
            + s.len() by {
            assert(ts[j] == rec[j]);
            assert(rec[j].len() <= cur2.len() + s.drop_first().len());
        }
    }
}

/// No token of `split_ws` is longer than the sentence.
pub proof fn lemma_split_ws_token_len(s: Seq<char>)
    ensures
        forall|j: int|
            0 <= j < split_ws(s).len() ==> (#[trigger] split_ws(s)[j]).len() <= s.len(),
{
    lemma_split_ws_acc_token_len(s, seq![]);
}

/// Every token of `split_ws` has content.
pub proof fn lemma_split_ws_tokens_have_content(s: Seq<char>)
    ensures
        forall|j: int| 0 <= j < split_ws(s).len() ==> has_content(#[trigger] split_ws(s)[j]),
{
    lemma_split_ws_acc_tokens(s, seq![]);
    assert forall|j: int| 0 <= j < split_ws(s).len() implies has_content(
        #[trigger] split_ws(s)[j],
    ) by {
        let t = split_ws(s)[j];
        assert(token_wf(t));
        assert(!is_space_char(t[0]));
    }
}

/// Relies on `String::push`: appends one character at the end of the string.
#[verifier::external_body]
pub(crate) fn push_char(s: &mut String, c: char)
    ensures
        final(s)@ == old(s)@.push(c),
{
    s.push(c);
}

pub fn split_whitespace_tokens(s: &str) -> (r: Vec<String>)
    ensures
        r.deep_view() == split_ws(s@),
{
    let n = s.unicode_len();
    let mut out: Vec<String> = Vec::new();
    let mut cur = String::new();
    let mut i: usize = 0;
    proof {
        assert(s@.skip(0) =~= s@);
        assert(out.deep_view() =~= Seq::<Seq<char>>::empty());
        assert(out.deep_view() + split_ws_acc(s@, cur@) =~= split_ws_acc(s@, cur@));
    }
    while i < n
        invariant
            0 <= i <= n,
            n == s@.len(),
            split_ws(s@) == out.deep_view() + split_ws_acc(s@.skip(i as int), cur@),
        decreases n - i,
    {
        let ghost prev_out = out.deep_view();
        let ghost rest = s@.skip(i as int);
        proof {
            assert(rest.len() > 0);
            assert(rest[0] == s@[i as int]);
            assert(rest.drop_first() =~= s@.skip(i as int + 1));
        }
        let c = s.get_char(i);
        if char_is_space(c) {
            if cur.as_str().is_empty() {
                proof {
                    assert(cur@ =~= Seq::<char>::empty());
                    assert(split_ws_acc(rest, cur@) == split_ws_acc(
                        rest.drop_first(),
                        Seq::<char>::empty(),
                    ));
                }
            } else {
                let done = cur;
                cur = String::new();
                out.push(done);
                proof {
                    assert(out.deep_view() =~= prev_out.push(done@));
                    assert(prev_out.push(done@) =~= prev_out + seq![done@]);
                    assert((prev_out + seq![done@]) + split_ws_acc(
                        s@.skip(i as int + 1),
                        seq![],
                    ) =~= prev_out + (seq![done@] + split_ws_acc(s@.skip(i as int + 1), seq![])));
                }
            }
        } else {
            push_char(&mut cur, c);
        }
        i += 1;
    }
    proof {
        assert(s@.skip(n as int) =~= Seq::<char>::empty());
    }
    if !cur.as_str().is_empty() {
        let ghost prev_out = out.deep_view();
        let done = cur;
        out.push(done);
        proof {
            assert(out.deep_view() =~= prev_out.push(done@));
            assert(prev_out.push(done@) =~= prev_out + seq![done@]);
        }
    } else {
        proof {
            assert(out.deep_view() + seq![] =~= out.deep_view());
        }
    }
    out
}

} // verus!
