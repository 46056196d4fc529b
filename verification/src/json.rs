//! Stable JSON encoding of the lattice and of a best path.

use vstd::prelude::*;

use crate::lattice::{Lattice, LatticeV, MorphemeNode, NodeV, WordNode};
use crate::word::{case_name, conjugation_name, pos_name, role_name, Detail, DetailV, Suffix, SuffixV, Word, WordV};
use crate::text::push_char;

verus! {

/// The character for one decimal digit.
pub open spec fn digit_char(d: int) -> char {
    if d == 0 {
        '0'
    } else if d == 1 {
        '1'
    } else if d == 2 {
        '2'
    } else if d == 3 {
        '3'
    } else if d == 4 {
        '4'
    } else if d == 5 {
        '5'
    } else if d == 6 {
        '6'
    } else if d == 7 {
        '7'
    } else if d == 8 {
        '8'
    } else {
        '9'
    }
}

/// The character for one hexadecimal digit.
pub open spec fn hex_char(d: int) -> char {
    if d < 10 {
        digit_char(d)
    } else if d == 10 {
        'a'
    } else if d == 11 {
        'b'
    } else if d == 12 {
        'c'
    } else if d == 13 {
        'd'
    } else if d == 14 {
        'e'
    } else {
        'f'
    }
}

/// The decimal digits of a natural number, most significant first.
pub open spec fn dec_digits(n: nat) -> Seq<char>
    decreases n,
{
    if n < 10 {
        seq![digit_char(n as int)]
    } else {
        dec_digits(n / 10).push(digit_char((n % 10) as int))
    }
}

/// The decimal rendering of an integer.
pub open spec fn dec_str(v: int) -> Seq<char> {
    if v < 0 {
        seq!['-'] + dec_digits((0 - v) as nat)
    } else {
        dec_digits(v as nat)
    }
}

fn digit_of(d: u64) -> (c: char)
    requires
        d < 10,
    ensures
        c == digit_char(d as int),
{
    if d == 0 {
        '0'
    } else if d == 1 {
        '1'
    } else if d == 2 {
        '2'
    } else if d == 3 {
        '3'
    } else if d == 4 {
        '4'
    } else if d == 5 {
        '5'
    } else if d == 6 {
        '6'
    } else if d == 7 {
        '7'
    } else if d == 8 {
        '8'
    } else {
        '9'
    }
}

fn push_digits(n: u64, out: &mut String)
    ensures
        final(out)@ == old(out)@ + dec_digits(n as nat),
    decreases n,
{
    if n < 10 {
        push_char(out, digit_of(n));
        proof {
            assert(final(out)@ =~= old(out)@ + dec_digits(n as nat));
        }
    } else {
        push_digits(n / 10, out);
        push_char(out, digit_of(n % 10));
        proof {
            assert(final(out)@ =~= old(out)@ + dec_digits(n as nat));
        }
    }
}

fn push_i64(n: i64, out: &mut String)
    ensures
        final(out)@ == old(out)@ + dec_str(n as int),
{
    if n >= 0 {
        push_digits(n as u64, out);
    } else {
        push_char(out, '-');
        let m: u64 = ((-(n + 1)) as u64) + 1;
        proof {
            assert(m as nat == (0 - n as int) as nat);
        }
        push_digits(m, out);
        proof {
            assert(final(out)@ =~= old(out)@ + dec_str(n as int));
        }
    }
}

/// The escape of one character inside a JSON string.
pub open spec fn esc_char(c: char) -> Seq<char> {
    if c == '"' {
        seq!['\\', '"']
    } else if c == '\\' {
        seq!['\\', '\\']
    } else if c == '\n' {
        seq!['\\', 'n']
    } else if c == '\r' {
        seq!['\\', 'r']
    } else if c == '\t' {
        seq!['\\', 't']
    } else if (c as int) < 32 {
        seq!['\\', 'u', '0', '0', hex_char((c as int) / 16), hex_char((c as int) % 16)]
    } else {
        seq![c]
    }
}

/// The escapes of the first `i` characters, in order.
pub open spec fn esc_upto(s: Seq<char>, i: int) -> Seq<char>
    decreases i,
{
    if i <= 0 {
        seq![]
    } else {
        esc_upto(s, i - 1) + esc_char(s[i - 1])
    }
}

/// A JSON string literal: quoted, with every character escaped as needed.
pub open spec fn json_string(s: Seq<char>) -> Seq<char> {
    seq!['"'] + esc_upto(s, s.len() as int) + seq!['"']
}

fn hex_of(d: u32) -> (c: char)
    requires
        d < 16,
    ensures
        c == hex_char(d as int),
{
    if d < 10 {
        digit_of(d as u64)
    } else if d == 10 {
        'a'
    } else if d == 11 {
        'b'
    } else if d == 12 {
        'c'
    } else if d == 13 {
        'd'
    } else if d == 14 {
        'e'
    } else {
        'f'
    }
}

fn push_json_string(s: &str, out: &mut String)
    ensures
        final(out)@ == old(out)@ + json_string(s@),
{
    push_char(out, '"');
    let ghost base = out@;
    let n = s.unicode_len();
    let mut i: usize = 0;
    while i < n
        invariant
            0 <= i <= n,
            n == s@.len(),
            out@ == base + esc_upto(s@, i as int),
        decreases n - i,
    {
        let ghost before = out@;
        let c = s.get_char(i);
        if c == '"' {
            push_char(out, '\\');
            push_char(out, '"');
        } else if c == '\\' {
            push_char(out, '\\');
            push_char(out, '\\');
        } else if c == '\n' {
            push_char(out, '\\');
            push_char(out, 'n');
        } else if c == '\r' {
            push_char(out, '\\');
            push_char(out, 'r');
        } else if c == '\t' {
            push_char(out, '\\');
            push_char(out, 't');
        } else {
            let v = c as u32;
            if v < 32 {
                push_char(out, '\\');
                push_char(out, 'u');
                push_char(out, '0');
                push_char(out, '0');
                push_char(out, hex_of(v / 16));
                push_char(out, hex_of(v % 16));
            } else {
                push_char(out, c);
            }
        }
        proof {
            assert(out@ =~= before + esc_char(s@[i as int]));
            assert(before + esc_char(s@[i as int]) =~= base + (esc_upto(s@, i as int) + esc_char(
                s@[i as int],
            )));
        }
        i += 1;
    }
    push_char(out, '"');
    proof {
        assert(final(out)@ =~= old(out)@ + json_string(s@));
    }
}

/// The JSON object of one suffix.
pub open spec fn json_suffix(sv: SuffixV) -> Seq<char> {
    "{\"suffix\":"@ + json_string(sv.suffix) + ",\"form\":"@ + json_string(
        conjugation_name(sv.conjugation),
    ) + ",\"role\":"@ + json_string(role_name(sv.role)) + ",\"left_pos\":"@ + json_string(
        pos_name(sv.part_of_speech),
    ) + "}"@
}

/// The JSON array elements of the first `i` suffixes, comma separated.
pub open spec fn json_suffixes_upto(ss: Seq<SuffixV>, i: int) -> Seq<char>
    decreases i,
{
    if i <= 0 {
        seq![]
    } else {
        json_suffixes_upto(ss, i - 1) + (if i - 1 > 0 {
            ","@
        } else {
            Seq::<char>::empty()
        }) + json_suffix(ss[i - 1])
    }
}

/// The JSON value of a detail: an object tagged by its variant.
pub open spec fn json_detail(d: DetailV) -> Seq<char> {
    match d {
        DetailV::Conjugation(c) => "{\"Conjugation\":"@ + json_string(conjugation_name(c)) + "}"@,
        DetailV::Case(k) => "{\"Case\":"@ + json_string(case_name(k)) + "}"@,
        DetailV::Other(t) => "{\"Other\":"@ + json_string(t) + "}"@,
    }
}

/// The JSON object of one word.
pub open spec fn json_word(w: WordV) -> Seq<char> {
    "{\"base\":"@ + json_string(w.base) + ",\"suffixes\":"@ + (match w.suffixes {
        Some(ss) => "["@ + json_suffixes_upto(ss, ss.len() as int) + "]"@,
        None => "null"@,
    }) + ",\"part_of_speech\":"@ + json_string(pos_name(w.part_of_speech)) + ",\"detail\":"@ + (
    match w.detail {
        Some(d) => json_detail(d),
        None => "null"@,
    }) + ",\"emission_cost\":"@ + dec_str(w.emission_cost) + "}"@
}

/// The JSON array elements of the first `i` words, comma separated.
pub open spec fn json_words_upto(ws: Seq<WordV>, i: int) -> Seq<char>
    decreases i,
{
    if i <= 0 {
        seq![]
    } else {
        json_words_upto(ws, i - 1) + (if i - 1 > 0 {
            ","@
        } else {
            Seq::<char>::empty()
        }) + json_word(ws[i - 1])
    }
}

/// The JSON object of one lattice node.
pub open spec fn json_node(nd: NodeV) -> Seq<char> {
    "{\"words\":["@ + json_words_upto(nd.words, nd.words.len() as int) + "],\"emission_cost\":"@
        + dec_str(nd.emission_cost) + ",\"path_cost\":"@ + dec_str(nd.path_cost)
        + ",\"left_node\":"@ + (match nd.left_node {
        Some(r) => dec_str(r),
        None => "null"@,
    }) + ",\"category\":"@ + json_string(nd.category) + "}"@
}

/// The JSON array elements of the first `i` nodes, comma separated.
pub open spec fn json_nodes_upto(col: Seq<NodeV>, i: int) -> Seq<char>
    decreases i,
{
    if i <= 0 {
        seq![]
    } else {
        json_nodes_upto(col, i - 1) + (if i - 1 > 0 {
            ","@
        } else {
            Seq::<char>::empty()
        }) + json_node(col[i - 1])
    }
}

/// The JSON array of one column.
pub open spec fn json_col(col: Seq<NodeV>) -> Seq<char> {
    "["@ + json_nodes_upto(col, col.len() as int) + "]"@
}

/// The JSON array elements of the first `i` columns, comma separated.
pub open spec fn json_cols_upto(cols: Seq<Seq<NodeV>>, i: int) -> Seq<char>
    decreases i,
{
    if i <= 0 {
        seq![]
    } else {
        json_cols_upto(cols, i - 1) + (if i - 1 > 0 {
            ","@
        } else {
            Seq::<char>::empty()
        }) + json_col(cols[i - 1])
    }
}

/// The JSON object of a whole lattice: its sentence and its columns.
pub open spec fn json_lattice(l: LatticeV) -> Seq<char> {
    "{\"sentence\":"@ + json_string(l.sentence) + ",\"lattice\":["@ + json_cols_upto(
        l.columns,
        l.columns.len() as int,
    ) + "]}"@
}

/// The JSON array elements of the first `i` word groups of a best path.
pub open spec fn json_groups_upto(path: Seq<Seq<WordV>>, i: int) -> Seq<char>
    decreases i,
{
    if i <= 0 {
        seq![]
    } else {
        json_groups_upto(path, i - 1) + (if i - 1 > 0 {
            ","@
        } else {
            Seq::<char>::empty()
        }) + "["@ + json_words_upto(path[i - 1], path[i - 1].len() as int) + "]"@
    }
}

/// The JSON array of a best path: one word array per column.
pub open spec fn json_path(path: Seq<Seq<WordV>>) -> Seq<char> {
    "["@ + json_groups_upto(path, path.len() as int) + "]"@
}

fn push_json_suffix(sv: &Suffix, out: &mut String)
    ensures
        final(out)@ == old(out)@ + json_suffix(sv@),
{
    out.append("{\"suffix\":");
    push_json_string(sv.suffix.as_str(), out);
    out.append(",\"form\":");
    let cname = sv.conjugation.name();
    push_json_string(cname.as_str(), out);
    out.append(",\"role\":");
    let rname = sv.role.name();
    push_json_string(rname.as_str(), out);
    out.append(",\"left_pos\":");
    let pname = sv.part_of_speech.name();
    push_json_string(pname.as_str(), out);
    out.append("}");
    proof {
        assert(final(out)@ =~= old(out)@ + json_suffix(sv@));
    }
}

#[verifier::rlimit(100)]
fn push_json_suffixes_opt(suffixes: &Option<Vec<Suffix>>, out: &mut String)
    ensures
        final(out)@ == old(out)@ + (match suffixes.deep_view() {
            Some(ss) => "["@ + json_suffixes_upto(ss, ss.len() as int) + "]"@,
            None => "null"@,
        }),
{
    match suffixes {
        Some(ss) => {
            let ghost ssv = ss.deep_view();
            out.append("[");
            let ghost base = out@;
            let n = ss.len();
            let mut i: usize = 0;
            while i < n
                invariant
                    0 <= i <= n,
                    n == ssv.len(),
                    ss.deep_view() == ssv,
                    out@ == base + json_suffixes_upto(ssv, i as int),
                decreases n - i,
            {
                proof {
                    assert(ss.deep_view()[i as int] == ss@[i as int]@);
                }
                if i > 0 {
                    out.append(",");
                }
                push_json_suffix(&ss[i], out);
                proof {
                    assert(out@ =~= base + json_suffixes_upto(ssv, i as int + 1));
                }
                i += 1;
            }
            out.append("]");
            proof {
                assert(final(out)@ =~= old(out)@ + ("["@ + json_suffixes_upto(
                    ssv,
                    ssv.len() as int,
                ) + "]"@));
            }
        },
        None => {
            out.append("null");
        },
    }
}

#[verifier::rlimit(100)]
fn push_json_detail_opt(detail: &Option<Detail>, out: &mut String)
    ensures
        final(out)@ == old(out)@ + (match detail.deep_view() {
            Some(d) => json_detail(d),
            None => "null"@,
        }),
{
    match detail {
        Some(d) => {
            match d {
                Detail::Conjugation(c) => {
                    out.append("{\"Conjugation\":");
                    let nm = c.name();
                    push_json_string(nm.as_str(), out);
                    out.append("}");
                    proof {
                        assert(final(out)@ =~= old(out)@ + json_detail(d@));
                    }
                },
                Detail::Case(k) => {
                    out.append("{\"Case\":");
                    let nm = k.name();
                    push_json_string(nm.as_str(), out);
                    out.append("}");
                    proof {
                        assert(final(out)@ =~= old(out)@ + json_detail(d@));
                    }
                },
                Detail::Other(t) => {
                    out.append("{\"Other\":");
                    push_json_string(t.as_str(), out);
                    out.append("}");
                    proof {
                        assert(final(out)@ =~= old(out)@ + json_detail(d@));
                    }
                },
            }
        },
        None => {
            out.append("null");
        },
    }
}

#[verifier::rlimit(100)]
fn push_json_word(w: &Word, out: &mut String)
    ensures
        final(out)@ == old(out)@ + json_word(w@),
{
    let ghost g0 = out@;
    out.append("{\"base\":");
    push_json_string(w.base.as_str(), out);
    out.append(",\"suffixes\":");
    proof {
        assert(out@ =~= g0 + "{\"base\":"@ + json_string(w@.base) + ",\"suffixes\":"@);
    }
    let ghost g1 = out@;
    push_json_suffixes_opt(&w.suffixes, out);
    proof {
        assert(out@ == g1 + (match w@.suffixes {
            Some(ss) => "["@ + json_suffixes_upto(ss, ss.len() as int) + "]"@,
            None => "null"@,
        }));
    }
    let ghost g2 = out@;
    out.append(",\"part_of_speech\":");
    let pname = w.part_of_speech.name();
    push_json_string(pname.as_str(), out);
    out.append(",\"detail\":");
    proof {
        assert(out@ =~= g2 + ",\"part_of_speech\":"@ + json_string(pos_name(w@.part_of_speech))
            + ",\"detail\":"@);
    }
    let ghost g3 = out@;
    push_json_detail_opt(&w.detail, out);
    let ghost g4 = out@;
    out.append(",\"emission_cost\":");
    push_i64(w.emission_cost, out);
    out.append("}");
    proof {
        assert(out@ =~= g4 + ",\"emission_cost\":"@ + dec_str(w@.emission_cost) + "}"@);
        assert(final(out)@ =~= old(out)@ + json_word(w@));
    }
}

#[verifier::rlimit(100)]
fn push_json_words(ws: &Vec<Word>, out: &mut String)
    ensures
        final(out)@ == old(out)@ + json_words_upto(ws.deep_view(), ws.deep_view().len() as int),
{
    let ghost wsv = ws.deep_view();
    let ghost base = out@;
    let n = ws.len();
    let mut i: usize = 0;
    while i < n
        invariant
            0 <= i <= n,
            n == wsv.len(),
            ws.deep_view() == wsv,
            out@ == base + json_words_upto(wsv, i as int),
        decreases n - i,
    {
        proof {
            assert(ws.deep_view()[i as int] == ws@[i as int]@);
        }
        if i > 0 {
            out.append(",");
        }
        push_json_word(&ws[i], out);
        proof {
            assert(out@ =~= base + json_words_upto(wsv, i as int + 1));
        }
        i += 1;
    }
}

#[verifier::rlimit(100)]
fn push_json_node(nd: &MorphemeNode, out: &mut String)
    ensures
        final(out)@ == old(out)@ + json_node(nd@),
{
    let ghost g0 = out@;
    out.append("{\"words\":[");
    push_json_words(&nd.words, out);
    out.append("],\"emission_cost\":");
    proof {
        assert(out@ =~= g0 + "{\"words\":["@ + json_words_upto(nd@.words, nd@.words.len() as int)
            + "],\"emission_cost\":"@);
    }
    let ghost g1 = out@;
    push_i64(nd.emission_cost, out);
    out.append(",\"path_cost\":");
    push_i64(nd.path_cost, out);
    out.append(",\"left_node\":");
    proof {
        assert(out@ =~= g1 + dec_str(nd@.emission_cost) + ",\"path_cost\":"@ + dec_str(
            nd@.path_cost,
        ) + ",\"left_node\":"@);
    }
    let ghost g2 = out@;
    match nd.left_node {
        Some(r) => {
            push_usize(r, out);
        },
        None => {
            out.append("null");
        },
    }
    proof {
        assert(out@ =~= g2 + (match nd@.left_node {
            Some(r) => dec_str(r),
            None => "null"@,
        }));
    }
    let ghost g3 = out@;
    out.append(",\"category\":");
    push_json_string(nd.category.as_str(), out);
    out.append("}");
    proof {
        assert(out@ =~= g3 + ",\"category\":"@ + json_string(nd@.category) + "}"@);
        assert(final(out)@ =~= old(out)@ + json_node(nd@));
    }
}

fn push_usize(r: usize, out: &mut String)
    ensures
        final(out)@ == old(out)@ + dec_str(r as int),
{
    push_digits(r as u64, out);
}

#[verifier::rlimit(100)]
fn push_json_col(col: &WordNode, out: &mut String)
    ensures
        final(out)@ == old(out)@ + json_col(col@),
{
    let ghost cv = col@;
    out.append("[");
    let ghost base = out@;
    let n = col.0.len();
    let mut i: usize = 0;
    while i < n
        invariant
            0 <= i <= n,
            n == cv.len(),
            col@ == cv,
            col.0.deep_view() == cv,
            out@ == base + json_nodes_upto(cv, i as int),
        decreases n - i,
    {
        proof {
            assert(col.0.deep_view()[i as int] == col.0@[i as int]@);
        }
        if i > 0 {
            out.append(",");
        }
        push_json_node(&col.0[i], out);
        proof {
            assert(out@ =~= base + json_nodes_upto(cv, i as int + 1));
        }
        i += 1;
    }
    out.append("]");
    proof {
        assert(final(out)@ =~= old(out)@ + json_col(cv));
    }
}

/// Serialize a best path as a JSON array of word arrays.
#[verifier::rlimit(100)]
pub fn path_to_json(path: &Vec<Vec<Word>>) -> (r: String)
    ensures
        r@ == json_path(path.deep_view()),
{
    let ghost pv = path.deep_view();
    let mut out = String::new();
    out.append("[");
    let ghost base = out@;
    let n = path.len();
    let mut i: usize = 0;
    while i < n
        invariant
            0 <= i <= n,
            n == pv.len(),
            path.deep_view() == pv,
            out@ == base + json_groups_upto(pv, i as int),
        decreases n - i,
    {
        proof {
            assert(path.deep_view()[i as int] == path@[i as int].deep_view());
        }
        if i > 0 {
            out.append(",");
        }
        out.append("[");
        push_json_words(&path[i], &mut out);
        out.append("]");
        proof {
            assert(out@ =~= base + json_groups_upto(pv, i as int + 1));
        }
        i += 1;
    }
    out.append("]");
    proof {
        assert(out@ =~= json_path(pv));
    }
    out
}

impl Lattice {
    /// Serialize the lattice into its stable JSON form: an object holding
    /// the sentence and the array of columns.
    #[verifier::rlimit(100)]
    pub fn to_json_string(&self) -> (r: String)
        ensures
            r@ == json_lattice(self@),
    {
        let mut out = String::new();
        out.append("{\"sentence\":");
        push_json_string(self.sentence.as_str(), &mut out);
        out.append(",\"lattice\":[");
        let ghost base = out@;
        let ghost cols = self@.columns;
        let n = self.lattice.len();
        let mut i: usize = 0;
        while i < n
            invariant
                0 <= i <= n,
                n == cols.len(),
                self@.columns == cols,
                self.lattice@.len() == n,
                out@ == base + json_cols_upto(cols, i as int),
            decreases n - i,
        {
            proof {
                assert(self.lattice.deep_view()[i as int] == self.lattice@[i as int].deep_view());
            }
            if i > 0 {
                out.append(",");
            }
            push_json_col(&self.lattice[i], &mut out);
            proof {
                assert(out@ =~= base + json_cols_upto(cols, i as int + 1));
            }
            i += 1;
        }
        out.append("]}");
        proof {
            assert(out@ =~= json_lattice(self@));
        }
        out
    }
}

/// Law: the encoding of an empty lattice is exactly
/// `{"sentence":"","lattice":[]}`.
pub proof fn lemma_json_empty_lattice(l: LatticeV)
    requires
        l.sentence.len() == 0,
        l.columns.len() == 0,
    ensures
        json_lattice(l) == "{\"sentence\":\"\",\"lattice\":[]}"@,
{
    reveal_strlit("{\"sentence\":");
    reveal_strlit(",\"lattice\":[");
    reveal_strlit("]}");
    reveal_strlit("{\"sentence\":\"\",\"lattice\":[]}");
    assert(esc_upto(l.sentence, 0) =~= Seq::<char>::empty());
    assert(json_cols_upto(l.columns, 0) =~= Seq::<char>::empty());
    assert(json_lattice(l) =~= "{\"sentence\":\"\",\"lattice\":[]}"@);
}

} // verus!
