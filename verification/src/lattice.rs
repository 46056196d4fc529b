//! The segmentation lattice: one column of candidate nodes per token, a
//! Viterbi-style cost relaxation over the columns, and the extraction of
//! the minimum-cost path.

use vstd::prelude::*;

use crate::edge_cost::{
    edge_cost_spec, edge_costs_bounded, get_edge_cost_map, lemma_edge_cost_bounded,
    edge_table_spec, EdgeCostMap, EdgeCostV,
};
use crate::function_word::{
    case_word, clitic_case_words, expand_spec, lookup_spec, other_word, FunctionWord,
    FunctionWordV,
};
use crate::phoneme::{native_ok, suffixes_to_native, word_convertible};
use crate::split_clitic::{clitic_split_spec, first_clitic_from, split_word_into_word_clitic};
use crate::split_suffix::{
    all_segmentations_spec, generate_all_segmentations, lemma_all_seg_surfaces,
    lemma_enumerator_costs, word_surface,
};
use crate::text::{split_ws, split_whitespace_tokens};
use crate::word::{
    case_name, conjugation_name, dup_word, dup_words, pos_name, Detail, DetailV, MorphError, PartOfSpeech,
    Word, WordV,
};

verus! {

/// One candidate analysis of a token.  When the token carries a clitic the
/// clitic is held as a second word: "niyalmai" becomes "niyalma" and "i".
pub struct MorphemeNode {
    pub words: Vec<Word>,
    pub emission_cost: i64,
    /// Minimum cost of a path from the first column to this node.
    pub path_cost: i64,
    /// Row, in the previous column, of the predecessor on that path.
    pub left_node: Option<usize>,
    /// Category the edge costs are keyed on: part of speech, conjugation,
    /// case, or free-form tag of the last word.
    pub category: String,
}

/// Mathematical image of a `MorphemeNode`.
pub struct NodeV {
    pub words: Seq<WordV>,
    pub emission_cost: int,
    pub path_cost: int,
    pub left_node: Option<int>,
    pub category: Seq<char>,
}

impl View for MorphemeNode {
    type V = NodeV;

    open spec fn view(&self) -> NodeV {
        NodeV {
            words: self.words.deep_view(),
            emission_cost: self.emission_cost as int,
            path_cost: self.path_cost as int,
            left_node: match self.left_node {
                Some(r) => Some(r as int),
                None => None,
            },
            category: self.category@,
        }
    }
}

impl DeepView for MorphemeNode {
    type V = NodeV;

    open spec fn deep_view(&self) -> NodeV {
        self.view()
    }
}

/// The category of a word: the display name of its detail, or of its part
/// of speech when it has none.
pub open spec fn category_of(w: WordV) -> Seq<char> {
    match w.detail {
        Some(DetailV::Conjugation(c)) => conjugation_name(c),
        Some(DetailV::Case(k)) => case_name(k),
        Some(DetailV::Other(t)) => t,
        None => pos_name(w.part_of_speech),
    }
}

/// The sum of the words' emission costs.
pub open spec fn sum_emissions(ws: Seq<WordV>) -> int
    decreases ws.len(),
{
    if ws.len() == 0 {
        0
    } else {
        sum_emissions(ws.drop_last()) + ws.last().emission_cost
    }
}

/// A fresh node over a word list: its emission cost is the sum of the
/// words' costs, its category comes from the last word, and it has no path
/// cost or predecessor yet.
pub open spec fn node_from_words(ws: Seq<WordV>) -> NodeV {
    NodeV {
        words: ws,
        emission_cost: sum_emissions(ws),
        path_cost: 0,
        left_node: None,
        category: category_of(ws.last()),
    }
}

/// Compute the category of a word.
pub fn word_category(w: &Word) -> (r: String)
    ensures
        r@ == category_of(w@),
{
    match &w.detail {
        Some(Detail::Conjugation(c)) => c.name(),
        Some(Detail::Case(k)) => k.name(),
        Some(Detail::Other(t)) => t.clone(),
        None => w.part_of_speech.name(),
    }
}

impl MorphemeNode {
    /// Assemble a node from already-computed parts; it starts unsolved.
    pub fn new(words: Vec<Word>, emission_cost: i64, category: String) -> (r: MorphemeNode)
        ensures
            r@ == (NodeV {
                words: words.deep_view(),
                emission_cost: emission_cost as int,
                path_cost: 0,
                left_node: None,
                category: category@,
            }),
    {
        MorphemeNode { words, emission_cost, path_cost: 0, left_node: None, category }
    }

    /// Create a node from a list of words.
    ///
    /// The list has one word, or two when the token carries a clitic.  The
    /// node's emission cost is the sum of the words' costs and its category
    /// is derived from the last word.
    pub fn from_words(words: Vec<Word>) -> (r: MorphemeNode)
        requires
            words.deep_view().len() > 0,
            words.deep_view().len() <= 0x1000,
            forall|i: int|
                0 <= i < words.deep_view().len() ==> -0x10000000000 <= (#[trigger] words.deep_view()[i]).emission_cost <= 0x10000000000,
        ensures
            r@ == node_from_words(words.deep_view()),
    {
        let ghost ws = words.deep_view();
        let n = words.len();
        let mut total: i64 = 0;
        let mut i: usize = 0;
        while i < n
            invariant
                0 <= i <= n,
                n == ws.len(),
                n <= 0x1000,
                ws == words.deep_view(),
                forall|k: int|
                    0 <= k < ws.len() ==> -0x10000000000 <= (#[trigger] ws[k]).emission_cost <= 0x10000000000,
                total as int == sum_emissions(ws.subrange(0, i as int)),
                -0x10000000000 * (i as int) <= total as int <= 0x10000000000 * (i as int),
            decreases n - i,
        {
            proof {
                assert(words.deep_view()[i as int] == words@[i as int]@);
                let pre = ws.subrange(0, i as int + 1);
                assert(pre.drop_last() =~= ws.subrange(0, i as int));
                assert(pre.last() == ws[i as int]);
            }
            total = total + words[i].emission_cost;
            i += 1;
        }
        proof {
            assert(ws.subrange(0, n as int) =~= ws);
        }
        let category = word_category(&words[n - 1]);
        proof {
            assert(words.deep_view()[n - 1] == words@[n - 1]@);
            assert(ws.last() == ws[n - 1]);
        }
        MorphemeNode { words, emission_cost: total, path_cost: 0, left_node: None, category }
    }
}

/// The candidate nodes covering one whitespace-delimited token, in
/// insertion order.
pub struct WordNode(pub Vec<MorphemeNode>);

impl View for WordNode {
    type V = Seq<NodeV>;

    open spec fn view(&self) -> Seq<NodeV> {
        self.0.deep_view()
    }
}

impl DeepView for WordNode {
    type V = Seq<NodeV>;

    open spec fn deep_view(&self) -> Seq<NodeV> {
        self.0.deep_view()
    }
}

/// The single-word nodes of a token's segmentations, in enumerator order.
pub open spec fn seg_nodes(token: Seq<char>) -> Seq<NodeV> {
    let segs = all_segmentations_spec(token, seq![]);
    Seq::new(segs.len(), |i: int| node_from_words(seq![segs[i]]))
}

/// The two-word nodes pairing one stem segmentation with each clitic word.
pub open spec fn pair_nodes_for_seg(s: WordV, cwords: Seq<WordV>) -> Seq<NodeV> {
    Seq::new(cwords.len(), |j: int| node_from_words(seq![s, cwords[j]]))
}

/// All stem-and-clitic nodes from stem segmentation `i` on: for every
/// segmentation, one node per clitic case.
pub open spec fn clitic_pair_nodes_from(
    stem_segs: Seq<WordV>,
    cwords: Seq<WordV>,
    i: int,
) -> Seq<NodeV>
    decreases stem_segs.len() - i,
{
    if i < 0 || i >= stem_segs.len() {
        seq![]
    } else {
        pair_nodes_for_seg(stem_segs[i], cwords) + clitic_pair_nodes_from(stem_segs, cwords, i + 1)
    }
}

/// The clitic-split nodes of a token, or nothing when no clitic detaches.
pub open spec fn clitic_nodes(token: Seq<char>) -> Seq<NodeV> {
    match clitic_split_spec(token) {
        Ok((stem, cwords)) => clitic_pair_nodes_from(
            all_segmentations_spec(stem, seq![]),
            cwords,
            0,
        ),
        Err(_) => seq![],
    }
}

/// The function-word nodes of a token, one per expanded sense.
pub open spec fn function_word_nodes(token: Seq<char>) -> Seq<NodeV> {
    match lookup_spec(token) {
        Some(f) => {
            let ws = expand_spec(f);
            Seq::new(ws.len(), |i: int| node_from_words(seq![ws[i]]))
        },
        None => seq![],
    }
}

/// The column of candidate nodes for one token, in insertion order:
/// segmentations first, then stem-and-clitic pairs, then function-word
/// senses.
pub open spec fn column_spec(token: Seq<char>) -> Seq<NodeV> {
    seg_nodes(token) + clitic_nodes(token) + function_word_nodes(token)
}

/// Every clitic word of a successful split costs exactly one.
proof fn lemma_clitic_words_cost(token: Seq<char>, stem: Seq<char>, cwv: Seq<WordV>)
    requires
        clitic_split_spec(token) == Ok::<(Seq<char>, Seq<WordV>), MorphError>((stem, cwv)),
    ensures
        forall|j: int| 0 <= j < cwv.len() ==> (#[trigger] cwv[j]).emission_cost == -1,
{
    let f = first_clitic_from(crate::function_word::function_word_table_spec(), token, 0).unwrap();
    assert(cwv == clitic_case_words(f));
    assert forall|j: int| 0 <= j < cwv.len() implies (#[trigger] cwv[j]).emission_cost == -1 by {
        assert(cwv[j] == case_word(f.entry, crate::word::case_of_name(f.details[j]).unwrap()));
    }
}

/// Every expanded function-word sense costs exactly one.
proof fn lemma_expand_words_cost(f: FunctionWordV)
    ensures
        forall|k: int|
            0 <= k < expand_spec(f).len() ==> (#[trigger] expand_spec(f)[k]).emission_cost == -1,
{
    assert forall|k: int| 0 <= k < expand_spec(f).len() implies (#[trigger] expand_spec(f)[k]).emission_cost
        == -1 by {
        if f.part_of_speech == PartOfSpeech::Clitic {
            assert(expand_spec(f)[k] == case_word(
                f.entry,
                crate::word::case_of_name(f.details[k]).unwrap(),
            ));
        } else {
            assert(expand_spec(f)[k] == other_word(f.entry, f.details[k], f.part_of_speech));
        }
    }
}

impl WordNode {
    /// Append one candidate node.
    pub fn add_node(&mut self, node: MorphemeNode)
        ensures
            final(self)@ == old(self)@.push(node@),
    {
        let ghost prev = self@;
        self.0.push(node);
        proof {
            assert(self@ =~= prev.push(self.0@.last()@));
        }
    }

    /// Append a list of candidate nodes, in order.
    pub fn add_nodes(&mut self, nodes: Vec<MorphemeNode>)
        ensures
            final(self)@ == old(self)@ + nodes.deep_view(),
    {
        let ghost prev = self@;
        let ghost added = nodes.deep_view();
        let mut nodes = nodes;
        self.0.append(&mut nodes);
        proof {
            assert(self@ =~= prev + added);
        }
    }

    /// Build the column of candidate nodes for one token, in this order:
    /// one node per segmentation of the token; if a clitic detaches, one
    /// node per stem segmentation and clitic case; and if the token is a
    /// function word, one node per sense.
    pub fn from_token(token: &str) -> (r: WordNode)
        requires
            token@.len() <= 0x1000_0000,
        ensures
            r@ == column_spec(token@),
    {
        let mut col = WordNode(Vec::new());
        let empty_words: Vec<Word> = Vec::new();
        let ghost ev = empty_words.deep_view();
        proof {
            assert(ev =~= Seq::<WordV>::empty());
            assert(ev =~= seq![]);
        }
        let segs = generate_all_segmentations(token, empty_words);
        let ghost segv = all_segmentations_spec(token@, seq![]);
        proof {
            assert(segs.deep_view() == segv);
        }
        let n = segs.len();
        let mut i: usize = 0;
        while i < n
            invariant
                0 <= i <= n,
                n == segv.len(),
                segv == all_segmentations_spec(token@, seq![]),
                segs.deep_view() == segv,
                token@.len() <= 0x1000_0000,
                col@ =~= seg_nodes(token@).subrange(0, i as int),
            decreases n - i,
        {
            proof {
                lemma_enumerator_costs(token@);
                assert(segs.deep_view()[i as int] == segs@[i as int]@);
            }
            let mut ws: Vec<Word> = Vec::new();
            ws.push(dup_word(&segs[i]));
            proof {
                assert(ws.deep_view() =~= seq![segv[i as int]]);
            }
            let node = MorphemeNode::from_words(ws);
            let ghost col0 = col@;
            col.add_node(node);
            proof {
                assert(seg_nodes(token@)[i as int] == node_from_words(seq![segv[i as int]]));
                assert(col@ =~= seg_nodes(token@).subrange(0, i as int + 1));
            }
            i += 1;
        }
        proof {
            assert(seg_nodes(token@).subrange(0, n as int) =~= seg_nodes(token@));
        }
        match split_word_into_word_clitic(token) {
            Ok(pair) => {
                let (stem, cwords) = pair;
                let ghost stemv = stem@;
                let ghost cwv = cwords.deep_view();
                proof {
                    assert(clitic_split_spec(token@) == Ok::<(Seq<char>, Seq<WordV>), crate::word::MorphError>(
                        (stemv, cwv),
                    ));
                    crate::split_clitic::lemma_first_clitic_props(
                        crate::function_word::function_word_table_spec(),
                        token@,
                        0,
                    );
                    let f = first_clitic_from(
                        crate::function_word::function_word_table_spec(),
                        token@,
                        0,
                    ).unwrap();
                    assert(crate::split_clitic::clitic_matches(f, token@));
                    assert(stemv == token@.subrange(0, token@.len() - f.entry.len()));
                    assert(stemv.len() <= token@.len());
                }
                let empty_stem_words: Vec<Word> = Vec::new();
                let ghost sev = empty_stem_words.deep_view();
                proof {
                    assert(sev =~= Seq::<WordV>::empty());
                    assert(sev =~= seq![]);
                }
                let stem_segs = generate_all_segmentations(stem.as_str(), empty_stem_words);
                let ghost ssegv = all_segmentations_spec(stemv, seq![]);
                proof {
                    assert(stem_segs.deep_view() == ssegv);
                }
                let sn = stem_segs.len();
                let cn = cwords.len();
                let mut i: usize = 0;
                while i < sn
                    invariant
                        0 <= i <= sn,
                        sn == ssegv.len(),
                        cn == cwv.len(),
                        token@.len() <= 0x1000_0000,
                        stemv.len() <= 0x1000_0000,
                        ssegv == all_segmentations_spec(stemv, seq![]),
                        stem_segs.deep_view() == ssegv,
                        cwords.deep_view() == cwv,
                        clitic_split_spec(token@) == Ok::<(Seq<char>, Seq<WordV>), crate::word::MorphError>(
                            (stemv, cwv),
                        ),
                        col@ + clitic_pair_nodes_from(ssegv, cwv, i as int) =~= seg_nodes(token@)
                            + clitic_nodes(token@),
                    decreases sn - i,
                {
                    let ghost outer0 = col@;
                    let mut j: usize = 0;
                    while j < cn
                        invariant
                            0 <= i < sn,
                            0 <= j <= cn,
                            sn == ssegv.len(),
                            cn == cwv.len(),
                            token@.len() <= 0x1000_0000,
                            stemv.len() <= 0x1000_0000,
                            ssegv == all_segmentations_spec(stemv, seq![]),
                            stem_segs.deep_view() == ssegv,
                            cwords.deep_view() == cwv,
                            clitic_split_spec(token@) == Ok::<(Seq<char>, Seq<WordV>), crate::word::MorphError>(
                                (stemv, cwv),
                            ),
                            col@ =~= outer0 + pair_nodes_for_seg(ssegv[i as int], cwv).subrange(
                                0,
                                j as int,
                            ),
                        decreases cn - j,
                    {
                        proof {
                            lemma_enumerator_costs(stemv);
                            lemma_clitic_words_cost(token@, stemv, cwv);
                            assert(stem_segs.deep_view()[i as int] == stem_segs@[i as int]@);
                            assert(cwords.deep_view()[j as int] == cwords@[j as int]@);
                        }
                        let mut ws: Vec<Word> = Vec::new();
                        ws.push(dup_word(&stem_segs[i]));
                        ws.push(dup_word(&cwords[j]));
                        proof {
                            assert(ws.deep_view() =~= seq![ssegv[i as int], cwv[j as int]]);
                        }
                        let node = MorphemeNode::from_words(ws);
                        let ghost col0 = col@;
                        col.add_node(node);
                        proof {
                            assert(pair_nodes_for_seg(ssegv[i as int], cwv)[j as int]
                                == node_from_words(seq![ssegv[i as int], cwv[j as int]]));
                            assert(col@ =~= outer0 + pair_nodes_for_seg(
                                ssegv[i as int],
                                cwv,
                            ).subrange(0, j as int + 1));
                        }
                        j += 1;
                    }
                    proof {
                        assert(pair_nodes_for_seg(ssegv[i as int], cwv).subrange(0, cn as int)
                            =~= pair_nodes_for_seg(ssegv[i as int], cwv));
                        assert(clitic_pair_nodes_from(ssegv, cwv, i as int)
                            == pair_nodes_for_seg(ssegv[i as int], cwv)
                            + clitic_pair_nodes_from(ssegv, cwv, i as int + 1));
                        assert(col@ + clitic_pair_nodes_from(ssegv, cwv, i as int + 1)
                            =~= (outer0 + pair_nodes_for_seg(ssegv[i as int], cwv))
                            + clitic_pair_nodes_from(ssegv, cwv, i as int + 1));
                        assert((outer0 + pair_nodes_for_seg(ssegv[i as int], cwv))
                            + clitic_pair_nodes_from(ssegv, cwv, i as int + 1) =~= outer0 + (
                        pair_nodes_for_seg(ssegv[i as int], cwv) + clitic_pair_nodes_from(
                            ssegv,
                            cwv,
                            i as int + 1,
                        )));
                    }
                    i += 1;
                }
                proof {
                    assert(clitic_pair_nodes_from(ssegv, cwv, sn as int) =~= Seq::<NodeV>::empty());
                    assert(col@ + Seq::<NodeV>::empty() =~= col@);
                }
            },
            Err(_) => {
                proof {
                    assert(clitic_nodes(token@) =~= Seq::<NodeV>::empty());
                    assert(col@ + Seq::<NodeV>::empty() =~= col@);
                    assert(seg_nodes(token@) + clitic_nodes(token@) =~= seg_nodes(token@));
                }
            },
        }
        match FunctionWord::lookup(token) {
            Some(f) => {
                let fws = f.to_words();
                let ghost fwv = expand_spec(f@);
                proof {
                    assert(fws.deep_view() == fwv);
                    assert(function_word_nodes(token@) == Seq::new(
                        fwv.len(),
                        |k: int| node_from_words(seq![fwv[k]]),
                    ));
                }
                let fn_count = fws.len();
                let mut k: usize = 0;
                while k < fn_count
                    invariant
                        0 <= k <= fn_count,
                        fn_count == fwv.len(),
                        fws.deep_view() == fwv,
                        lookup_spec(token@) == Some(f@),
                        fwv == expand_spec(f@),
                        col@ =~= seg_nodes(token@) + clitic_nodes(token@) + function_word_nodes(
                            token@,
                        ).subrange(0, k as int),
                    decreases fn_count - k,
                {
                    proof {
                        lemma_expand_words_cost(f@);
                        assert(fws.deep_view()[k as int] == fws@[k as int]@);
                    }
                    let mut ws: Vec<Word> = Vec::new();
                    ws.push(dup_word(&fws[k]));
                    proof {
                        assert(ws.deep_view() =~= seq![fwv[k as int]]);
                    }
                    let node = MorphemeNode::from_words(ws);
                    let ghost col0 = col@;
                    col.add_node(node);
                    proof {
                        assert(function_word_nodes(token@)[k as int] == node_from_words(
                            seq![fwv[k as int]],
                        ));
                        assert(col@ =~= seg_nodes(token@) + clitic_nodes(token@)
                            + function_word_nodes(token@).subrange(0, k as int + 1));
                    }
                    k += 1;
                }
                proof {
                    assert(function_word_nodes(token@).subrange(0, fn_count as int)
                        =~= function_word_nodes(token@));
                    assert(col@ =~= column_spec(token@));
                }
            },
            None => {
                proof {
                    assert(function_word_nodes(token@) =~= Seq::<NodeV>::empty());
                    assert(col@ + Seq::<NodeV>::empty() =~= col@);
                    assert(col@ =~= column_spec(token@));
                }
            },
        }
        col
    }

    /// Replace the node at a row.
    pub fn put_morpheme_node(&mut self, index: usize, morpheme_node: MorphemeNode)
        requires
            index < old(self)@.len(),
        ensures
            final(self)@ == old(self)@.update(index as int, morpheme_node@),
    {
        let ghost prev = self@;
        let ghost nv = morpheme_node@;
        self.0.set(index, morpheme_node);
        proof {
            assert(self@ =~= prev.update(index as int, nv));
        }
    }
}

/// No column of the lattice is empty.
pub open spec fn columns_nonempty(cols: Seq<Seq<NodeV>>) -> bool {
    forall|i: int| 0 <= i < cols.len() ==> (#[trigger] cols[i]).len() > 0
}

/// Every node is unsolved: zero path cost, no predecessor.
pub open spec fn columns_fresh(cols: Seq<Seq<NodeV>>) -> bool {
    forall|i: int, j: int|
        0 <= i < cols.len() && 0 <= j < cols[i].len() ==> {
            let nd = #[trigger] cols[i][j];
            nd.path_cost == 0 && nd.left_node is None
        }
}

/// Every node's emission cost lies within the bound.
pub open spec fn emissions_bounded(cols: Seq<Seq<NodeV>>, b: int) -> bool {
    forall|i: int, j: int|
        0 <= i < cols.len() && 0 <= j < cols[i].len() ==> -b <= (#[trigger] cols[i][j]).emission_cost
            <= b
}

/// Every node's path cost lies within the bound.
pub open spec fn paths_bounded(col: Seq<NodeV>, b: int) -> bool {
    forall|j: int| 0 <= j < col.len() ==> -b <= (#[trigger] col[j]).path_cost <= b
}

/// The emission sum of a single word.
pub proof fn lemma_sum_singleton(w: WordV)
    ensures
        sum_emissions(seq![w]) == w.emission_cost,
{
    reveal_with_fuel(sum_emissions, 2);
    assert(seq![w].drop_last() =~= Seq::<WordV>::empty());
    assert(seq![w].last() == w);
    assert(sum_emissions(Seq::<WordV>::empty()) == 0);
}

/// The emission sum of a pair of words.
pub proof fn lemma_sum_pair(a: WordV, b: WordV)
    ensures
        sum_emissions(seq![a, b]) == a.emission_cost + b.emission_cost,
{
    assert(seq![a, b].drop_last() =~= seq![a]);
    assert(seq![a, b].last() == b);
    lemma_sum_singleton(a);
}

/// Every node of a token's column starts unsolved, sums its words' costs,
/// and carries an emission cost between minus five times the token length
/// minus one and zero.
pub proof fn lemma_column_props(token: Seq<char>)
    requires
        token.len() <= 0x1000_0000,
    ensures
        column_spec(token).len() >= 2,
        forall|j: int|
            0 <= j < column_spec(token).len() ==> {
                let nd = #[trigger] column_spec(token)[j];
                &&& nd.path_cost == 0
                &&& nd.left_node is None
                &&& nd.words.len() > 0
                &&& nd.emission_cost == sum_emissions(nd.words)
                &&& -0x100000000 <= nd.emission_cost <= 0
            },
{
    let sn = seg_nodes(token);
    let cn = clitic_nodes(token);
    let fnn = function_word_nodes(token);
    let segv = all_segmentations_spec(token, seq![]);
    lemma_enumerator_costs(token);
    assert(segv.len() >= 2);
    assert(column_spec(token).len() >= 2) by {
        assert(sn.len() == segv.len());
    }
    assert forall|j: int| 0 <= j < column_spec(token).len() implies {
        let nd = #[trigger] column_spec(token)[j];
        &&& nd.path_cost == 0
        &&& nd.left_node is None
        &&& nd.words.len() > 0
        &&& nd.emission_cost == sum_emissions(nd.words)
        &&& -0x100000000 <= nd.emission_cost <= 0
    } by {
        let nd = column_spec(token)[j];
        if j < sn.len() {
            assert(nd == sn[j]);
            assert(nd == node_from_words(seq![segv[j]]));
            lemma_sum_singleton(segv[j]);
        } else if j < sn.len() + cn.len() {
            assert(nd == cn[j - sn.len()]);
            match clitic_split_spec(token) {
                Ok(pr) => {
                    let stem = pr.0;
                    let cwv = pr.1;
                    crate::split_clitic::lemma_first_clitic_props(
                        crate::function_word::function_word_table_spec(),
                        token,
                        0,
                    );
                    let f = first_clitic_from(
                        crate::function_word::function_word_table_spec(),
                        token,
                        0,
                    ).unwrap();
                    assert(stem == token.subrange(0, token.len() - f.entry.len()));
                    assert(stem.len() <= token.len());
                    let ssegv = all_segmentations_spec(stem, seq![]);
                    lemma_enumerator_costs(stem);
                    lemma_clitic_words_cost(token, stem, cwv);
                    lemma_clitic_pair_node(ssegv, cwv, 0, j - sn.len());
                    let pair = clitic_pair_index(ssegv, cwv, 0, j - sn.len());
                    assert(nd == node_from_words(seq![ssegv[pair.0], cwv[pair.1]]));
                    lemma_sum_pair(ssegv[pair.0], cwv[pair.1]);
                },
                Err(_) => {
                    assert(cn.len() == 0);
                },
            }
        } else {
            assert(nd == fnn[j - sn.len() - cn.len()]);
            match lookup_spec(token) {
                Some(f) => {
                    lemma_expand_words_cost(f);
                    let fwv = expand_spec(f);
                    assert(nd == node_from_words(seq![fwv[j - sn.len() - cn.len()]]));
                    lemma_sum_singleton(fwv[j - sn.len() - cn.len()]);
                },
                None => {
                    assert(fnn.len() == 0);
                },
            }
        }
    }
}

/// The pair of indices a flattened stem-and-clitic position comes from.
pub open spec fn clitic_pair_index(
    stem_segs: Seq<WordV>,
    cwords: Seq<WordV>,
    i: int,
    k: int,
) -> (int, int)
    decreases stem_segs.len() - i,
{
    if i < 0 || i >= stem_segs.len() {
        (0, 0)
    } else if k < cwords.len() {
        (i, k)
    } else {
        clitic_pair_index(stem_segs, cwords, i + 1, k - cwords.len())
    }
}

/// Each node of the flattened stem-and-clitic block pairs one stem
/// segmentation with one clitic word.
pub proof fn lemma_clitic_pair_node(stem_segs: Seq<WordV>, cwords: Seq<WordV>, i: int, k: int)
    requires
        0 <= k < clitic_pair_nodes_from(stem_segs, cwords, i).len(),
    ensures
        ({
            let pr = clitic_pair_index(stem_segs, cwords, i, k);
            &&& i <= pr.0 < stem_segs.len()
            &&& 0 <= pr.1 < cwords.len()
            &&& clitic_pair_nodes_from(stem_segs, cwords, i)[k] == node_from_words(
                seq![stem_segs[pr.0], cwords[pr.1]],
            )
        }),
    decreases stem_segs.len() - i,
{
    if i < 0 || i >= stem_segs.len() {
    } else if k < cwords.len() {
        assert(clitic_pair_nodes_from(stem_segs, cwords, i)[k] == pair_nodes_for_seg(
            stem_segs[i],
            cwords,
        )[k]);
    } else {
        lemma_clitic_pair_node(stem_segs, cwords, i + 1, k - cwords.len());
        assert(clitic_pair_nodes_from(stem_segs, cwords, i)[k] == clitic_pair_nodes_from(
            stem_segs,
            cwords,
            i + 1,
        )[k - cwords.len()]);
    }
}

/// The lattice: the sentence and one column of candidate nodes per token.
pub struct Lattice {
    pub sentence: String,
    pub lattice: Vec<WordNode>,
}

/// Mathematical image of a `Lattice`.
pub struct LatticeV {
    pub sentence: Seq<char>,
    pub columns: Seq<Seq<NodeV>>,
}

impl View for Lattice {
    type V = LatticeV;

    open spec fn view(&self) -> LatticeV {
        LatticeV { sentence: self.sentence@, columns: self.lattice.deep_view() }
    }
}

impl Lattice {
    /// Create a lattice from a sentence: one column per whitespace token.
    ///
    /// Sentences are capped at 2^28 characters so that every cost computed
    /// downstream stays within machine integers.
    pub fn from_sentence(sentence: &str) -> (r: Lattice)
        requires
            sentence@.len() <= 0x1000_0000,
        ensures
            r@.sentence == sentence@,
            r@.columns.len() == split_ws(sentence@).len(),
            forall|i: int|
                0 <= i < r@.columns.len() ==> r@.columns[i] == column_spec(
                    #[trigger] split_ws(sentence@)[i],
                ),
            columns_nonempty(r@.columns),
            columns_fresh(r@.columns),
            emissions_bounded(r@.columns, 0x100000000),
    {
        let tokens = split_whitespace_tokens(sentence);
        proof {
            crate::text::lemma_split_ws_token_len(sentence@);
        }
        let mut cols: Vec<WordNode> = Vec::new();
        let n = tokens.len();
        let mut i: usize = 0;
        while i < n
            invariant
                0 <= i <= n,
                n == split_ws(sentence@).len(),
                tokens.deep_view() == split_ws(sentence@),
                sentence@.len() <= 0x1000_0000,
                cols.deep_view().len() == i,
                forall|k: int|
                    0 <= k < i ==> cols.deep_view()[k] == column_spec(
                        #[trigger] split_ws(sentence@)[k],
                    ),
            decreases n - i,
        {
            proof {
                crate::text::lemma_split_ws_token_len(sentence@);
                assert(tokens.deep_view()[i as int] == tokens@[i as int]@);
            }
            let col = WordNode::from_token(tokens[i].as_str());
            cols.push(col);
            i += 1;
        }
        let r = Lattice { sentence: String::from_str(sentence), lattice: cols };
        proof {
            assert forall|i2: int, j: int|
                0 <= i2 < r@.columns.len() && 0 <= j < r@.columns[i2].len() implies {
                let nd = #[trigger] r@.columns[i2][j];
                nd.path_cost == 0 && nd.left_node is None && -0x100000000 <= nd.emission_cost
                    <= 0x100000000
            } by {
                crate::text::lemma_split_ws_token_len(sentence@);
                lemma_column_props(split_ws(sentence@)[i2]);
            }
            assert forall|i2: int| 0 <= i2 < r@.columns.len() implies (#[trigger] r@.columns[i2]).len()
                > 0 by {
                crate::text::lemma_split_ws_token_len(sentence@);
                lemma_column_props(split_ws(sentence@)[i2]);
            }
        }
        r
    }
}

/// The cost of entering node `c` from predecessor `j` of the previous
/// column: the predecessor's path cost, plus the node's emission cost,
/// plus the edge cost between their categories.
pub open spec fn cand_cost(m: Seq<EdgeCostV>, prev: Seq<NodeV>, j: int, c: NodeV) -> int {
    prev[j].path_cost + c.emission_cost + edge_cost_spec(m, prev[j].category, c.category)
}

/// The minimum entering cost over predecessors `0 .. k`.
pub open spec fn min_cost_upto(m: Seq<EdgeCostV>, prev: Seq<NodeV>, c: NodeV, k: int) -> int
    decreases k,
{
    if k <= 1 {
        cand_cost(m, prev, 0, c)
    } else if cand_cost(m, prev, k - 1, c) < min_cost_upto(m, prev, c, k - 1) {
        cand_cost(m, prev, k - 1, c)
    } else {
        min_cost_upto(m, prev, c, k - 1)
    }
}

/// The first predecessor among `0 .. k` attaining the minimum entering
/// cost: at equal cost the earlier row wins.
pub open spec fn argmin_upto(m: Seq<EdgeCostV>, prev: Seq<NodeV>, c: NodeV, k: int) -> int
    decreases k,
{
    if k <= 1 {
        0
    } else if cand_cost(m, prev, k - 1, c) < min_cost_upto(m, prev, c, k - 1) {
        k - 1
    } else {
        argmin_upto(m, prev, c, k - 1)
    }
}

/// The minimum over `0 .. k` is attained, first-wins, and below every
/// candidate.
pub proof fn lemma_min_upto_props(m: Seq<EdgeCostV>, prev: Seq<NodeV>, c: NodeV, k: int)
    requires
        1 <= k,
    ensures
        0 <= argmin_upto(m, prev, c, k) < k,
        cand_cost(m, prev, argmin_upto(m, prev, c, k), c) == min_cost_upto(m, prev, c, k),
        forall|l: int| 0 <= l < k ==> min_cost_upto(m, prev, c, k) <= cand_cost(m, prev, l, c),
        forall|l: int|
            0 <= l < argmin_upto(m, prev, c, k) ==> min_cost_upto(m, prev, c, k) < cand_cost(
                m,
                prev,
                l,
                c,
            ),
    decreases k,
{
    if k <= 1 {
    } else {
        lemma_min_upto_props(m, prev, c, k - 1);
    }
}

/// A node after relaxation against a solved previous column: its words,
/// emission cost and category are kept; its path cost becomes the minimum
/// entering cost and its back pointer names the first predecessor
/// attaining it.
pub open spec fn relaxed_node(m: Seq<EdgeCostV>, prev: Seq<NodeV>, c: NodeV) -> NodeV {
    NodeV {
        words: c.words,
        emission_cost: c.emission_cost,
        path_cost: min_cost_upto(m, prev, c, prev.len() as int),
        left_node: Some(argmin_upto(m, prev, c, prev.len() as int)),
        category: c.category,
    }
}

/// A column after relaxation against a solved previous column.
pub open spec fn relaxed_col(m: Seq<EdgeCostV>, prev: Seq<NodeV>, col: Seq<NodeV>) -> Seq<NodeV> {
    Seq::new(col.len(), |j: int| relaxed_node(m, prev, col[j]))
}

/// The first `n` columns after solving: the first column is untouched, and
/// each later column is relaxed against the solved column before it.
pub open spec fn solved_cols_upto(m: Seq<EdgeCostV>, cols: Seq<Seq<NodeV>>, n: int) -> Seq<
    Seq<NodeV>,
>
    decreases n,
{
    if n <= 1 {
        cols.take(n)
    } else {
        let pre = solved_cols_upto(m, cols, n - 1);
        pre.push(relaxed_col(m, pre.last(), cols[n - 1]))
    }
}

/// The whole lattice after solving.
pub open spec fn solved_cols(m: Seq<EdgeCostV>, cols: Seq<Seq<NodeV>>) -> Seq<Seq<NodeV>> {
    solved_cols_upto(m, cols, cols.len() as int)
}

/// Solving keeps the number of columns.
pub proof fn lemma_solved_len(m: Seq<EdgeCostV>, cols: Seq<Seq<NodeV>>, n: int)
    requires
        0 <= n <= cols.len(),
    ensures
        solved_cols_upto(m, cols, n).len() == n,
    decreases n,
{
    if n <= 1 {
    } else {
        lemma_solved_len(m, cols, n - 1);
    }
}

/// What each solved column is: the first column itself, or the relaxation
/// of the original column against the solved one before it.
pub proof fn lemma_solved_index(m: Seq<EdgeCostV>, cols: Seq<Seq<NodeV>>, n: int, i: int)
    requires
        0 <= i < n,
        n <= cols.len(),
    ensures
        solved_cols_upto(m, cols, n).len() == n,
        i == 0 ==> solved_cols_upto(m, cols, n)[i] == cols[0],
        i >= 1 ==> solved_cols_upto(m, cols, n)[i] == relaxed_col(
            m,
            solved_cols_upto(m, cols, n)[i - 1],
            cols[i],
        ),
        solved_cols_upto(m, cols, n)[i] == solved_cols(m, cols)[i],
    decreases cols.len() - n,
{
    lemma_solved_prefix_stable(m, cols, n);
    lemma_solved_index_inner(m, cols, n, i);
}

/// Within a fixed horizon, each solved column is characterized by the one
/// before it.
proof fn lemma_solved_index_inner(m: Seq<EdgeCostV>, cols: Seq<Seq<NodeV>>, n: int, i: int)
    requires
        0 <= i < n,
        n <= cols.len(),
    ensures
        solved_cols_upto(m, cols, n).len() == n,
        i == 0 ==> solved_cols_upto(m, cols, n)[i] == cols[0],
        i >= 1 ==> solved_cols_upto(m, cols, n)[i] == relaxed_col(
            m,
            solved_cols_upto(m, cols, n)[i - 1],
            cols[i],
        ),
    decreases n,
{
    lemma_solved_len(m, cols, n);
    if n <= 1 {
    } else {
        lemma_solved_len(m, cols, n - 1);
        if i == n - 1 {
            if i >= 1 {
                lemma_solved_index_inner(m, cols, n - 1, i - 1);
                assert(solved_cols_upto(m, cols, n)[i - 1] == solved_cols_upto(
                    m,
                    cols,
                    n - 1,
                )[i - 1]);
            }
        } else {
            lemma_solved_index_inner(m, cols, n - 1, i);
            if i >= 1 {
                lemma_solved_index_inner(m, cols, n - 1, i - 1);
            }
        }
    }
}

/// Extending the horizon does not change the columns already solved.
proof fn lemma_solved_prefix_stable(m: Seq<EdgeCostV>, cols: Seq<Seq<NodeV>>, n: int)
    requires
        0 <= n <= cols.len(),
    ensures
        forall|i: int|
            0 <= i < n ==> solved_cols_upto(m, cols, n)[i] == #[trigger] solved_cols(m, cols)[i],
    decreases cols.len() - n,
{
    if n == cols.len() {
    } else {
        lemma_solved_prefix_stable(m, cols, n + 1);
        lemma_solved_len(m, cols, n);
        lemma_solved_len(m, cols, n + 1);
        assert forall|i: int| 0 <= i < n implies solved_cols_upto(m, cols, n)[i] == #[trigger] solved_cols(
            m,
            cols,
        )[i] by {
            if n + 1 <= 1 {
                assert(solved_cols_upto(m, cols, n)[i] == cols.take(n)[i]);
                assert(solved_cols_upto(m, cols, n + 1)[i] == cols.take(n + 1)[i]);
            } else if n <= 1 {
                assert(solved_cols_upto(m, cols, n + 1) == solved_cols_upto(m, cols, n).push(
                    relaxed_col(m, solved_cols_upto(m, cols, n).last(), cols[n]),
                ));
                assert(solved_cols_upto(m, cols, n + 1)[i] == solved_cols_upto(m, cols, n)[i]);
            } else {
                assert(solved_cols_upto(m, cols, n + 1)[i] == solved_cols_upto(m, cols, n)[i]);
            }
        }
    }
}

impl Lattice {
    /// Relax every column after the first against the column before it,
    /// with the given edge-cost map.
    ///
    /// Each node of a later column receives as path cost the minimum, over
    /// the previous column, of the predecessor's path cost plus this
    /// node's emission cost plus the edge cost between their categories;
    /// its back pointer names the first predecessor attaining that
    /// minimum.  The first column is left untouched.
    pub fn calculate_path_costs_with(&mut self, m: &EdgeCostMap)
        requires
            old(self)@.columns.len() <= 0x1000_0000,
            columns_nonempty(old(self)@.columns),
            emissions_bounded(old(self)@.columns, 0x100000000),
            edge_costs_bounded(m@, 0x100000000),
            old(self)@.columns.len() > 0 ==> paths_bounded(old(self)@.columns[0], 0x100000000),
        ensures
            final(self)@.sentence == old(self)@.sentence,
            final(self)@.columns == solved_cols(m@, old(self)@.columns),
    {
        let n = self.lattice.len();
        proof {
            assert(n == old(self)@.columns.len());
        }
        if n <= 1 {
            proof {
                assert(old(self)@.columns.take(n as int) =~= old(self)@.columns);
            }
            return;
        }
        let ghost cols0 = old(self)@.columns;
        proof {
            lemma_solved_len(m@, cols0, n as int);
            lemma_solved_index(m@, cols0, n as int, 0);
        }
        let mut i: usize = 1;
        while i < n
            invariant
                1 <= i <= n,
                n == cols0.len(),
                n <= 0x1000_0000,
                cols0 == old(self)@.columns,
                self@.sentence == old(self)@.sentence,
                self@.columns.len() == n,
                self.lattice@.len() == n,
                columns_nonempty(cols0),
                emissions_bounded(cols0, 0x100000000),
                edge_costs_bounded(m@, 0x100000000),
                paths_bounded(cols0[0], 0x100000000),
                forall|k: int|
                    0 <= k < i ==> self@.columns[k] == #[trigger] solved_cols(m@, cols0)[k],
                forall|k: int| i <= k < n ==> self@.columns[k] == #[trigger] cols0[k],
                forall|k: int|
                    0 <= k < i ==> paths_bounded(
                        #[trigger] self@.columns[k],
                        0x100000000 + k * 0x300000000,
                    ),
            decreases n - i,
        {
            let ghost prevv = self@.columns[i - 1];
            let ghost curv = cols0[i as int];
            proof {
                assert(self@.columns[i as int] == curv);
                assert(self@.columns[i - 1] == self.lattice@[i - 1].deep_view());
                assert(self@.columns[i as int] == self.lattice@[i as int].deep_view());
                if i == 1 {
                    assert(solved_cols(m@, cols0)[0] == cols0[0]) by {
                        lemma_solved_index(m@, cols0, n as int, 0);
                    }
                    assert(paths_bounded(prevv, 0x100000000int + 0int * 0x300000000int));
                }
            }
            let prev_len = self.lattice[i - 1].0.len();
            let cur_len = self.lattice[i].0.len();
            proof {
                assert(prev_len == prevv.len());
                assert(cur_len == curv.len());
                assert(prevv.len() > 0) by {
                    if i == 1 {
                        assert(prevv == solved_cols(m@, cols0)[0]);
                        lemma_solved_index(m@, cols0, n as int, 0);
                    } else {
                        assert(prevv == solved_cols(m@, cols0)[i - 1]);
                        lemma_solved_index(m@, cols0, n as int, i - 1);
                        lemma_solved_index(m@, cols0, n as int, i - 2);
                    }
                }
            }
            let mut new_col: Vec<MorphemeNode> = Vec::new();
            let mut j: usize = 0;
            while j < cur_len
                invariant
                    1 <= i < n,
                    0 <= j <= cur_len,
                    n == cols0.len(),
                    n <= 0x1000_0000,
                    cols0 == old(self)@.columns,
                    self@.sentence == old(self)@.sentence,
                    self@.columns.len() == n,
                    self.lattice@.len() == n,
                    columns_nonempty(cols0),
                    emissions_bounded(cols0, 0x100000000),
                    edge_costs_bounded(m@, 0x100000000),
                    paths_bounded(cols0[0], 0x100000000),
                    prevv == self@.columns[i - 1],
                    curv == cols0[i as int],
                    self@.columns[i as int] == curv,
                    prev_len == prevv.len(),
                    cur_len == curv.len(),
                    prevv.len() > 0,
                    paths_bounded(prevv, 0x100000000 + (i - 1) * 0x300000000),
                    forall|k: int|
                        0 <= k < i ==> self@.columns[k] == #[trigger] solved_cols(m@, cols0)[k],
                    forall|k: int| i <= k < n ==> self@.columns[k] == #[trigger] cols0[k],
                    forall|k: int|
                        0 <= k < i ==> paths_bounded(
                            #[trigger] self@.columns[k],
                            0x100000000 + k * 0x300000000,
                        ),
                    new_col.deep_view() =~= relaxed_col(m@, prevv, curv).subrange(0, j as int),
                decreases cur_len - j,
            {
                let ghost c = curv[j as int];
                proof {
                    assert(self.lattice@[i as int].deep_view()[j as int] == self.lattice@[i as int].0@[j as int]@);
                    assert(self.lattice@[i - 1].deep_view()[0] == self.lattice@[i - 1].0@[0]@);
                    assert(-0x100000000 <= c.emission_cost <= 0x100000000);
                    assert(-(0x100000000 + (i - 1) * 0x300000000) <= prevv[0].path_cost
                        <= 0x100000000 + (i - 1) * 0x300000000);
                    lemma_edge_cost_bounded(m@, prevv[0].category, c.category, 0x100000000, 0);
                }
                let cur_em = self.lattice[i].0[j].emission_cost;
                let e0 = m.cost_of(
                    self.lattice[i - 1].0[0].category.as_str(),
                    self.lattice[i].0[j].category.as_str(),
                );
                let mut best: i64 = self.lattice[i - 1].0[0].path_cost + cur_em + e0;
                let mut bidx: usize = 0;
                proof {
                    assert(best as int == cand_cost(m@, prevv, 0, c));
                    assert(best as int == min_cost_upto(m@, prevv, c, 1));
                    assert(argmin_upto(m@, prevv, c, 1) == 0);
                }
                let mut k: usize = 1;
                while k < prev_len
                    invariant
                        1 <= k <= prev_len,
                        0 <= j < cur_len,
                        1 <= i < n,
                        n == cols0.len(),
                        n <= 0x1000_0000,
                        cols0 == old(self)@.columns,
                        self@.sentence == old(self)@.sentence,
                        self@.columns.len() == n,
                        self.lattice@.len() == n,
                        emissions_bounded(cols0, 0x100000000),
                        edge_costs_bounded(m@, 0x100000000),
                        prevv == self@.columns[i - 1],
                        curv == cols0[i as int],
                        self@.columns[i as int] == curv,
                        prev_len == prevv.len(),
                        cur_len == curv.len(),
                        prevv.len() > 0,
                        paths_bounded(prevv, 0x100000000 + (i - 1) * 0x300000000),
                        c == curv[j as int],
                        cur_em as int == c.emission_cost,
                        -0x100000000 <= cur_em as int <= 0x100000000,
                        best as int == min_cost_upto(m@, prevv, c, k as int),
                        0 <= bidx < k,
                        bidx as int == argmin_upto(m@, prevv, c, k as int),
                        -(0x100000000 + (i - 1) * 0x300000000 + 0x200000000) <= best as int
                            <= 0x100000000 + (i - 1) * 0x300000000 + 0x200000000,
                    decreases prev_len - k,
                {
                    proof {
                        assert(self.lattice@[i - 1].deep_view()[k as int] == self.lattice@[i - 1].0@[k as int]@);
                        assert(-(0x100000000 + (i - 1) * 0x300000000) <= prevv[k as int].path_cost
                            <= 0x100000000 + (i - 1) * 0x300000000);
                        lemma_edge_cost_bounded(m@, prevv[k as int].category, c.category, 0x100000000, 0);
                    }
                    let ek = m.cost_of(
                        self.lattice[i - 1].0[k].category.as_str(),
                        self.lattice[i].0[j].category.as_str(),
                    );
                    let cand = self.lattice[i - 1].0[k].path_cost + cur_em + ek;
                    proof {
                        assert(cand as int == cand_cost(m@, prevv, k as int, c));
                    }
                    if cand < best {
                        best = cand;
                        bidx = k;
                    }
                    k += 1;
                }
                let ghost col_before = new_col.deep_view();
                let words = dup_words(&self.lattice[i].0[j].words);
                let emission_cost = self.lattice[i].0[j].emission_cost;
                let category = self.lattice[i].0[j].category.clone();
                let new_node = MorphemeNode {
                    words,
                    emission_cost,
                    path_cost: best,
                    left_node: Some(bidx),
                    category,
                };
                proof {
                    assert(new_node@ == relaxed_node(m@, prevv, c));
                }
                new_col.push(new_node);
                proof {
                    assert(new_col.deep_view() =~= col_before.push(new_node@));
                    assert(relaxed_col(m@, prevv, curv)[j as int] == relaxed_node(m@, prevv, c));
                    assert(new_col.deep_view() =~= relaxed_col(m@, prevv, curv).subrange(
                        0,
                        j as int + 1,
                    ));
                }
                j += 1;
            }
            proof {
                assert(relaxed_col(m@, prevv, curv).subrange(0, cur_len as int) =~= relaxed_col(
                    m@,
                    prevv,
                    curv,
                ));
            }
            let ghost pre_cols = self@.columns;
            self.lattice.set(i, WordNode(new_col));
            proof {
                assert(self@.columns =~= pre_cols.update(i as int, relaxed_col(m@, prevv, curv)));
                lemma_solved_index(m@, cols0, n as int, i as int);
                if i >= 1 {
                    assert(solved_cols(m@, cols0)[i as int] == relaxed_col(
                        m@,
                        solved_cols_upto(m@, cols0, n as int)[i - 1],
                        cols0[i as int],
                    ));
                    lemma_solved_index(m@, cols0, n as int, i - 1);
                    assert(solved_cols_upto(m@, cols0, n as int)[i - 1] == solved_cols(
                        m@,
                        cols0,
                    )[i - 1]);
                    assert(prevv == solved_cols(m@, cols0)[i - 1]);
                }
                assert(self@.columns[i as int] == solved_cols(m@, cols0)[i as int]);
                assert forall|k2: int| 0 <= k2 < i + 1 implies paths_bounded(
                    #[trigger] self@.columns[k2],
                    0x100000000 + k2 * 0x300000000,
                ) by {
                    if k2 < i {
                        assert(self@.columns[k2] == pre_cols[k2]);
                    } else {
                        assert(self@.columns[k2] == relaxed_col(m@, prevv, curv));
                        assert forall|j2: int| 0 <= j2 < relaxed_col(m@, prevv, curv).len() implies
                            -(0x100000000 + k2 * 0x300000000) <= (#[trigger] relaxed_col(
                            m@,
                            prevv,
                            curv,
                        )[j2]).path_cost <= 0x100000000 + k2 * 0x300000000 by {
                            let cj = curv[j2];
                            assert(relaxed_col(m@, prevv, curv)[j2] == relaxed_node(m@, prevv, cj));
                            lemma_min_upto_props(m@, prevv, cj, prevv.len() as int);
                            let am = argmin_upto(m@, prevv, cj, prevv.len() as int);
                            assert(min_cost_upto(m@, prevv, cj, prevv.len() as int) == cand_cost(
                                m@,
                                prevv,
                                am,
                                cj,
                            ));
                            assert(-0x100000000 <= cj.emission_cost <= 0x100000000);
                            lemma_edge_cost_bounded(m@, prevv[am].category, cj.category, 0x100000000, 0);
                        }
                    }
                }
            }
            i += 1;
        }
        proof {
            lemma_solved_len(m@, cols0, n as int);
            assert(self@.columns =~= solved_cols(m@, cols0));
        }
    }

    /// Relax the lattice with the built-in edge-cost table.
    pub fn calculate_path_costs(&mut self)
        requires
            old(self)@.columns.len() <= 0x1000_0000,
            columns_nonempty(old(self)@.columns),
            emissions_bounded(old(self)@.columns, 0x100000000),
            old(self)@.columns.len() > 0 ==> paths_bounded(old(self)@.columns[0], 0x100000000),
        ensures
            final(self)@.sentence == old(self)@.sentence,
            final(self)@.columns == solved_cols(edge_table_spec(), old(self)@.columns),
    {
        let m = get_edge_cost_map();
        proof {
            assert(edge_costs_bounded(m@, 0x100000000)) by {
                assert(forall|i: int|
                    0 <= i < m@.len() ==> -2 <= (#[trigger] m@[i]).cost <= 2);
            }
        }
        self.calculate_path_costs_with(&m);
    }
}

/// The first row among `0 .. k` with minimal path cost: at equal cost the
/// earlier row wins.
pub open spec fn best_in_col_upto(col: Seq<NodeV>, k: int) -> int
    decreases k,
{
    if k <= 1 {
        0
    } else if col[k - 1].path_cost < col[best_in_col_upto(col, k - 1)].path_cost {
        k - 1
    } else {
        best_in_col_upto(col, k - 1)
    }
}

/// The first row of the column with minimal path cost.
pub open spec fn best_in_col(col: Seq<NodeV>) -> int {
    best_in_col_upto(col, col.len() as int)
}

/// The best row is in range, minimal, and first among equals.
pub proof fn lemma_best_in_col_props(col: Seq<NodeV>, k: int)
    requires
        1 <= k,
    ensures
        0 <= best_in_col_upto(col, k) < k,
        forall|l: int|
            0 <= l < k ==> col[best_in_col_upto(col, k)].path_cost <= (#[trigger] col[l]).path_cost,
        forall|l: int|
            0 <= l < best_in_col_upto(col, k) ==> col[best_in_col_upto(col, k)].path_cost < (
            #[trigger] col[l]).path_cost,
    decreases k,
{
    if k <= 1 {
    } else {
        lemma_best_in_col_props(col, k - 1);
    }
}

/// Back pointers are well-formed: none in the first column, and in every
/// later column each points at a row of the column before it.
pub open spec fn back_pointers_valid(cols: Seq<Seq<NodeV>>) -> bool {
    forall|i: int, j: int|
        0 <= i < cols.len() && 0 <= j < cols[i].len() ==> {
            let nd = #[trigger] cols[i][j];
            if i == 0 {
                nd.left_node is None
            } else {
                nd.left_node is Some && 0 <= nd.left_node.unwrap() < cols[i - 1].len()
            }
        }
}

/// The row the best path passes through at column `i`: the first
/// minimum-cost row of the last column, then the chain of back pointers.
pub open spec fn path_row(cols: Seq<Seq<NodeV>>, i: int) -> int
    decreases cols.len() - i,
{
    if i >= cols.len() - 1 {
        best_in_col(cols.last())
    } else {
        match cols[i + 1][path_row(cols, i + 1)].left_node {
            Some(r) => r,
            None => 0,
        }
    }
}

/// Along valid back pointers the best path stays inside its columns.
pub proof fn lemma_path_row_bounds(cols: Seq<Seq<NodeV>>, i: int)
    requires
        cols.len() > 0,
        columns_nonempty(cols),
        back_pointers_valid(cols),
        0 <= i < cols.len(),
    ensures
        0 <= path_row(cols, i) < cols[i].len(),
    decreases cols.len() - i,
{
    if i >= cols.len() - 1 {
        assert(cols.last() == cols[cols.len() - 1]);
        assert(cols[cols.len() - 1].len() > 0);
        lemma_best_in_col_props(cols.last(), cols.last().len() as int);
    } else {
        lemma_path_row_bounds(cols, i + 1);
    }
}

impl Lattice {
    /// Extract the minimum-cost path: from the first minimum-cost node of
    /// the last column (earlier rows win ties), follow back pointers to the
    /// first column and return each visited node's words, first column
    /// first.  The result has exactly one entry per column.
    pub fn get_min_cost_path(&self) -> (r: Vec<Vec<Word>>)
        requires
            self@.columns.len() > 0,
            columns_nonempty(self@.columns),
            back_pointers_valid(self@.columns),
        ensures
            r.deep_view().len() == self@.columns.len(),
            forall|i: int|
                0 <= i < self@.columns.len() ==> r.deep_view()[i] == self@.columns[i][path_row(self@.columns, i)].words,
    {
        let ghost cols = self@.columns;
        let n = self.lattice.len();
        proof {
            assert(n == cols.len());
            assert(cols[n - 1].len() > 0);
            assert(self.lattice@[n - 1].deep_view() == cols[n - 1]);
            assert(cols.last() == cols[n - 1]);
        }
        let ll = self.lattice[n - 1].0.len();
        let mut best_idx: usize = 0;
        let mut k: usize = 1;
        while k < ll
            invariant
                1 <= k <= ll,
                n == cols.len(),
                n == self.lattice@.len(),
                cols == self@.columns,
                n > 0,
                ll == cols[n - 1].len(),
                cols.last() == cols[n - 1],
                columns_nonempty(cols),
                back_pointers_valid(cols),
                0 <= best_idx < k,
                best_idx as int == best_in_col_upto(cols[n - 1], k as int),
            decreases ll - k,
        {
            proof {
                assert(self.lattice@[n - 1].deep_view()[k as int] == self.lattice@[n - 1].0@[k as int]@);
                assert(self.lattice@[n - 1].deep_view()[best_idx as int] == self.lattice@[n - 1].0@[best_idx as int]@);
            }
            if self.lattice[n - 1].0[k].path_cost < self.lattice[n - 1].0[best_idx].path_cost {
                best_idx = k;
            }
            k += 1;
        }
        proof {
            assert(best_idx as int == best_in_col(cols.last()));
            assert(path_row(cols, n - 1) == best_in_col(cols.last()));
        }
        let mut rev: Vec<Vec<Word>> = Vec::new();
        let mut i: usize = n - 1;
        let mut row: usize = best_idx;
        let mut done = false;
        while !done
            invariant
                n == cols.len(),
                n == self.lattice@.len(),
                cols == self@.columns,
                n > 0,
                columns_nonempty(cols),
                back_pointers_valid(cols),
                !done ==> 0 <= i < n,
                !done ==> 0 <= row < cols[i as int].len(),
                !done ==> row as int == path_row(cols, i as int),
                !done ==> rev.deep_view().len() == n - 1 - i,
                done ==> rev.deep_view().len() == n,
                forall|q: int|
                    0 <= q < rev.deep_view().len() ==> rev.deep_view()[q] == cols[n - 1 - q][path_row(cols, n - 1 - q)].words,
            decreases (if done { 0int } else { 1int }), i,
        {
            proof {
                assert(self.lattice@[i as int].deep_view()[row as int] == self.lattice@[i as int].0@[row as int]@);
            }
            let ghost rev0 = rev.deep_view();
            let ws = dup_words(&self.lattice[i].0[row].words);
            rev.push(ws);
            proof {
                assert(rev.deep_view() =~= rev0.push(cols[i as int][row as int].words));
            }
            if i == 0 {
                done = true;
            } else {
                let next_row = match self.lattice[i].0[row].left_node {
                    Some(r2) => r2,
                    None => {
                        proof {
                            assert(false);
                        }
                        0
                    },
                };
                proof {
                    assert(cols[i as int][row as int].left_node == Some(next_row as int));
                    assert(path_row(cols, i - 1) == next_row as int);
                    lemma_path_row_bounds(cols, i - 1);
                }
                row = next_row;
                i -= 1;
            }
        }
        let mut out: Vec<Vec<Word>> = Vec::new();
        while rev.len() > 0
            invariant
                n == cols.len(),
                out.deep_view().len() + rev.deep_view().len() == n,
                forall|q: int|
                    0 <= q < rev.deep_view().len() ==> rev.deep_view()[q] == cols[n - 1 - q][path_row(cols, n - 1 - q)].words,
                forall|q: int|
                    0 <= q < out.deep_view().len() ==> out.deep_view()[q] == cols[q][path_row(
                        cols,
                        q,
                    )].words,
            decreases rev.deep_view().len(),
        {
            let ghost rl = rev.deep_view().len() as int;
            let ghost out0 = out.deep_view();
            let ghost revd0 = rev.deep_view();
            let v = match rev.pop() {
                Some(v) => v,
                None => {
                    proof {
                        assert(false);
                    }
                    Vec::new()
                },
            };
            proof {
                assert(v.deep_view() == revd0[rl - 1]);
                assert(v.deep_view() == cols[n - rl][path_row(cols, n - rl)].words);
                assert(rev.deep_view() =~= revd0.subrange(0, rl - 1));
            }
            out.push(v);
            proof {
                assert(out.deep_view() =~= out0.push(v.deep_view()));
            }
        }
        out
    }
}

/// The text a node covers: its words' surfaces laid end to end.
pub open spec fn words_surface(ws: Seq<WordV>) -> Seq<char>
    decreases ws.len(),
{
    if ws.len() == 0 {
        seq![]
    } else {
        word_surface(ws.first()) + words_surface(ws.drop_first())
    }
}

/// The text a node covers.
pub open spec fn node_surface(nd: NodeV) -> Seq<char> {
    words_surface(nd.words)
}


/// The surface of a single-word node is the word's surface.
proof fn lemma_words_surface_one(w: WordV)
    ensures
        words_surface(seq![w]) == word_surface(w),
{
    reveal_with_fuel(words_surface, 2);
    assert(seq![w].first() == w);
    assert(seq![w].drop_first() =~= Seq::<WordV>::empty());
    assert(words_surface(Seq::<WordV>::empty()) == Seq::<char>::empty());
    assert(word_surface(w) + Seq::<char>::empty() =~= word_surface(w));
}

/// The surface of a two-word node is the two surfaces laid end to end.
proof fn lemma_words_surface_two(a: WordV, b: WordV)
    ensures
        words_surface(seq![a, b]) == word_surface(a) + word_surface(b),
{
    lemma_words_surface_one(b);
    assert(seq![a, b].first() == a);
    assert(seq![a, b].drop_first() =~= seq![b]);
}

/// Law (no phantom characters): every candidate node of a token's column
/// covers exactly the token — concatenating each word's base with its
/// suffixes in right-attachment order, then the words in order, restores
/// the token.
pub proof fn lemma_column_covers_token(token: Seq<char>)
    ensures
        forall|j: int|
            0 <= j < column_spec(token).len() ==> node_surface(#[trigger] column_spec(token)[j])
                == token,
{
    let sn = seg_nodes(token);
    let cn = clitic_nodes(token);
    let segv = all_segmentations_spec(token, seq![]);
    lemma_all_seg_surfaces(token);
    assert forall|j: int| 0 <= j < column_spec(token).len() implies node_surface(
        #[trigger] column_spec(token)[j],
    ) == token by {
        let nd = column_spec(token)[j];
        if j < sn.len() {
            assert(nd == sn[j]);
            assert(nd == node_from_words(seq![segv[j]]));
            lemma_words_surface_one(segv[j]);
        } else if j < sn.len() + cn.len() {
            assert(nd == cn[j - sn.len()]);
            match clitic_split_spec(token) {
                Ok(pr) => {
                    let stem = pr.0;
                    let cwv = pr.1;
                    crate::split_clitic::lemma_first_clitic_props(
                        crate::function_word::function_word_table_spec(),
                        token,
                        0,
                    );
                    let f = first_clitic_from(
                        crate::function_word::function_word_table_spec(),
                        token,
                        0,
                    ).unwrap();
                    assert(crate::split_clitic::clitic_matches(f, token));
                    assert(stem == token.subrange(0, token.len() - f.entry.len()));
                    let ssegv = all_segmentations_spec(stem, seq![]);
                    lemma_all_seg_surfaces(stem);
                    lemma_clitic_pair_node(ssegv, cwv, 0, j - sn.len());
                    let pair = clitic_pair_index(ssegv, cwv, 0, j - sn.len());
                    assert(nd == node_from_words(seq![ssegv[pair.0], cwv[pair.1]]));
                    let sw = ssegv[pair.0];
                    let cw = cwv[pair.1];
                    assert(cw == case_word(f.entry, crate::word::case_of_name(f.details[pair.1]).unwrap()));
                    let ws = seq![sw, cw];
                    lemma_words_surface_two(sw, cw);
                    assert(word_surface(cw) =~= f.entry);
                    assert(word_surface(sw) == stem);
                    assert(token =~= token.subrange(0, token.len() - f.entry.len())
                        + token.subrange(token.len() - f.entry.len(), token.len() as int));
                    assert(words_surface(ws) =~= token);
                },
                Err(_) => {
                    assert(cn.len() == 0);
                },
            }
        } else {
            match lookup_spec(token) {
                Some(f) => {
                    crate::function_word::lemma_lookup_props(
                        crate::function_word::function_word_table_spec(),
                        token,
                        0,
                    );
                    assert(f.entry == token);
                    let fwv = expand_spec(f);
                    let k = j - sn.len() - cn.len();
                    assert(nd == node_from_words(seq![fwv[k]]));
                    let w = fwv[k];
                    if f.part_of_speech == PartOfSpeech::Clitic {
                        assert(w == case_word(f.entry, crate::word::case_of_name(f.details[k]).unwrap()));
                    } else {
                        assert(w == other_word(f.entry, f.details[k], f.part_of_speech));
                    }
                    lemma_words_surface_one(w);
                    assert(word_surface(w) =~= token);
                    assert(words_surface(seq![w]) =~= token);
                },
                None => {
                    assert(function_word_nodes(token).len() == 0);
                },
            }
        }
    }
}

/// The solved lattice keeps each column's length.
pub proof fn lemma_solved_col_lens(m: Seq<EdgeCostV>, cols: Seq<Seq<NodeV>>)
    ensures
        solved_cols(m, cols).len() == cols.len(),
        forall|i: int|
            0 <= i < cols.len() ==> (#[trigger] solved_cols(m, cols)[i]).len() == cols[i].len(),
{
    lemma_solved_len(m, cols, cols.len() as int);
    assert forall|i: int| 0 <= i < cols.len() implies (#[trigger] solved_cols(m, cols)[i]).len()
        == cols[i].len() by {
        lemma_solved_index(m, cols, cols.len() as int, i);
    }
}

/// Law (Viterbi relation): after solving, the first column is untouched,
/// and every later node keeps its words, emission cost and category while
/// its path cost equals the minimum over the previous solved column of
/// predecessor path cost plus emission cost plus edge cost; the back
/// pointer names the first predecessor attaining that minimum.
pub proof fn lemma_solved_is_viterbi(m: Seq<EdgeCostV>, cols: Seq<Seq<NodeV>>, i: int, j: int)
    requires
        columns_nonempty(cols),
        1 <= i < cols.len(),
        0 <= j < cols[i].len(),
    ensures
        solved_cols(m, cols).len() == cols.len(),
        solved_cols(m, cols)[0] == cols[0],
        ({
            let sv = solved_cols(m, cols);
            let prev = sv[i - 1];
            let nd = sv[i][j];
            let c = cols[i][j];
            &&& prev.len() == cols[i - 1].len()
            &&& nd.words == c.words
            &&& nd.emission_cost == c.emission_cost
            &&& nd.category == c.category
            &&& forall|l: int|
                0 <= l < prev.len() ==> nd.path_cost <= (#[trigger] prev[l]).path_cost
                    + c.emission_cost + edge_cost_spec(m, prev[l].category, c.category)
            &&& nd.left_node is Some
            &&& 0 <= nd.left_node.unwrap() < prev.len()
            &&& nd.path_cost == prev[nd.left_node.unwrap()].path_cost + c.emission_cost
                + edge_cost_spec(m, prev[nd.left_node.unwrap()].category, c.category)
            &&& forall|l: int|
                0 <= l < nd.left_node.unwrap() ==> nd.path_cost < (#[trigger] prev[l]).path_cost
                    + c.emission_cost + edge_cost_spec(m, prev[l].category, c.category)
        }),
{
    lemma_solved_col_lens(m, cols);
    lemma_solved_index(m, cols, cols.len() as int, 0);
    lemma_solved_index(m, cols, cols.len() as int, i);
    lemma_solved_index(m, cols, cols.len() as int, i - 1);
    let sv = solved_cols(m, cols);
    let prev = sv[i - 1];
    let c = cols[i][j];
    assert(sv[i] == relaxed_col(m, prev, cols[i]));
    assert(sv[i][j] == relaxed_node(m, prev, c));
    assert(prev.len() == cols[i - 1].len());
    assert(prev.len() > 0);
    lemma_min_upto_props(m, prev, c, prev.len() as int);
    let nd = sv[i][j];
    assert forall|l: int| 0 <= l < prev.len() implies nd.path_cost <= (#[trigger] prev[l]).path_cost
        + c.emission_cost + edge_cost_spec(m, prev[l].category, c.category) by {
        assert(min_cost_upto(m, prev, c, prev.len() as int) <= cand_cost(m, prev, l, c));
    }
    assert forall|l: int| 0 <= l < nd.left_node.unwrap() implies nd.path_cost < (
    #[trigger] prev[l]).path_cost + c.emission_cost + edge_cost_spec(
        m,
        prev[l].category,
        c.category,
    ) by {
        assert(min_cost_upto(m, prev, c, prev.len() as int) < cand_cost(m, prev, l, c));
    }
}

/// Two nodes alike in emission cost and category relax identically.
proof fn lemma_min_depends(m: Seq<EdgeCostV>, prev: Seq<NodeV>, c1: NodeV, c2: NodeV, k: int)
    requires
        c1.emission_cost == c2.emission_cost,
        c1.category == c2.category,
    ensures
        min_cost_upto(m, prev, c1, k) == min_cost_upto(m, prev, c2, k),
        argmin_upto(m, prev, c1, k) == argmin_upto(m, prev, c2, k),
    decreases k,
{
    if k <= 1 {
        assert(cand_cost(m, prev, 0, c1) == cand_cost(m, prev, 0, c2));
    } else {
        lemma_min_depends(m, prev, c1, c2, k - 1);
        assert(cand_cost(m, prev, k - 1, c1) == cand_cost(m, prev, k - 1, c2));
    }
}

/// Within a horizon, solving what is already solved changes nothing.
proof fn lemma_solved_idempotent_upto(m: Seq<EdgeCostV>, cols: Seq<Seq<NodeV>>, k: int)
    requires
        0 <= k <= cols.len(),
    ensures
        solved_cols_upto(m, solved_cols(m, cols), k) == solved_cols(m, cols).take(k),
    decreases k,
{
    let sv = solved_cols(m, cols);
    lemma_solved_col_lens(m, cols);
    if k <= 1 {
    } else {
        lemma_solved_idempotent_upto(m, cols, k - 1);
        let pre = solved_cols_upto(m, sv, k - 1);
        assert(pre == sv.take(k - 1));
        assert(pre.last() == sv[k - 2]);
        lemma_solved_index(m, cols, cols.len() as int, k - 1);
        assert(sv[k - 1] == relaxed_col(m, sv[k - 2], cols[k - 1]));
        assert forall|j: int| 0 <= j < sv[k - 1].len() implies #[trigger] relaxed_col(
            m,
            sv[k - 2],
            sv[k - 1],
        )[j] == sv[k - 1][j] by {
            let orig = cols[k - 1][j];
            let once = relaxed_node(m, sv[k - 2], orig);
            assert(sv[k - 1][j] == once);
            lemma_min_depends(m, sv[k - 2], once, orig, sv[k - 2].len() as int);
            assert(relaxed_node(m, sv[k - 2], once) == once);
        }
        assert(relaxed_col(m, sv[k - 2], sv[k - 1]) =~= sv[k - 1]);
        assert(solved_cols_upto(m, sv, k) == pre.push(sv[k - 1]));
        assert(sv.take(k - 1).push(sv[k - 1]) =~= sv.take(k));
    }
}

/// Law (idempotence): solving an already solved lattice reproduces it
/// exactly — in particular the back-pointer structure is identical, since
/// relaxation reads only costs and categories that solving preserves.
pub proof fn lemma_solver_idempotent(m: Seq<EdgeCostV>, cols: Seq<Seq<NodeV>>)
    ensures
        solved_cols(m, solved_cols(m, cols)) == solved_cols(m, cols),
{
    let sv = solved_cols(m, cols);
    lemma_solved_col_lens(m, cols);
    lemma_solved_idempotent_upto(m, cols, cols.len() as int);
    assert(solved_cols(m, sv) == sv.take(sv.len() as int));
    assert(sv.take(sv.len() as int) =~= sv);
}

/// After solving a fresh lattice, every back pointer is well-formed: the
/// first column has none and each later node points into the column before
/// it.
pub proof fn lemma_solved_pointers_valid(m: Seq<EdgeCostV>, cols: Seq<Seq<NodeV>>)
    requires
        cols.len() > 0,
        columns_nonempty(cols),
        forall|j: int| 0 <= j < cols[0].len() ==> (#[trigger] cols[0][j]).left_node is None,
    ensures
        back_pointers_valid(solved_cols(m, cols)),
        columns_nonempty(solved_cols(m, cols)),
        solved_cols(m, cols).len() == cols.len(),
    decreases cols.len(),
{
    let sv = solved_cols(m, cols);
    lemma_solved_col_lens(m, cols);
    lemma_solved_index(m, cols, cols.len() as int, 0);
    assert forall|i: int, j: int| 0 <= i < sv.len() && 0 <= j < sv[i].len() implies {
        let nd = #[trigger] sv[i][j];
        if i == 0 {
            nd.left_node is None
        } else {
            nd.left_node is Some && 0 <= nd.left_node.unwrap() < sv[i - 1].len()
        }
    } by {
        if i == 0 {
            assert(sv[0][j] == cols[0][j]);
        } else {
            lemma_solved_is_viterbi(m, cols, i, j);
        }
    }
    assert forall|i: int| 0 <= i < sv.len() implies (#[trigger] sv[i]).len() > 0 by {
    }
}

/// A whole lattice converts when every word of every node converts.
pub open spec fn lattice_convertible(cols: Seq<Seq<NodeV>>) -> bool {
    forall|i: int, j: int, k: int|
        0 <= i < cols.len() && 0 <= j < cols[i].len() && 0 <= k < cols[i][j].words.len()
            ==> word_convertible(#[trigger] cols[i][j].words[k])
}

/// A word with its base and suffix surfaces replaced by native script.
pub open spec fn word_to_native(w: WordV) -> WordV {
    WordV {
        base: native_ok(w.base).unwrap(),
        suffixes: match w.suffixes {
            Some(ss) => Some(suffixes_to_native(ss)),
            None => None,
        },
        part_of_speech: w.part_of_speech,
        detail: w.detail,
        emission_cost: w.emission_cost,
    }
}

/// A node with every word converted; costs, pointer and category stay.
pub open spec fn node_to_native(nd: NodeV) -> NodeV {
    NodeV {
        words: Seq::new(nd.words.len(), |k: int| word_to_native(nd.words[k])),
        emission_cost: nd.emission_cost,
        path_cost: nd.path_cost,
        left_node: nd.left_node,
        category: nd.category,
    }
}

impl Lattice {
    /// Replace every word's base and suffix surfaces with their
    /// native-script images, across the whole lattice.  On any conversion
    /// failure the lattice is left unchanged and the error is surfaced.
    pub fn to_manchu_letters(&mut self) -> (r: Result<(), MorphError>)
        ensures
            r is Ok <==> lattice_convertible(old(self)@.columns),
            r is Err ==> r == Err::<(), MorphError>(MorphError::ConversionError) && final(self)@
                == old(self)@,
            r is Ok ==> final(self)@.sentence == old(self)@.sentence && final(self)@.columns.len()
                == old(self)@.columns.len() && forall|i: int, j: int|
                0 <= i < old(self)@.columns.len() && 0 <= j < old(self)@.columns[i].len()
                    ==> final(self)@.columns[i][j] == node_to_native(
                    #[trigger] old(self)@.columns[i][j],
                ),
    {
        let ghost cols0 = self@.columns;
        let n = self.lattice.len();
        let mut new_cols: Vec<WordNode> = Vec::new();
        let mut i: usize = 0;
        while i < n
            invariant
                0 <= i <= n,
                n == cols0.len(),
                cols0 == old(self)@.columns,
                self@ == old(self)@,
                self.lattice@.len() == n,
                new_cols.deep_view().len() == i,
                forall|i2: int, j: int|
                    0 <= i2 < i && 0 <= j < cols0[i2].len() ==> new_cols.deep_view()[i2][j]
                        == node_to_native(#[trigger] cols0[i2][j]),
                forall|i2: int|
                    0 <= i2 < i ==> (#[trigger] new_cols.deep_view()[i2]).len()
                        == cols0[i2].len(),
                forall|i2: int, j: int, k: int|
                    0 <= i2 < i && 0 <= j < cols0[i2].len() && 0 <= k
                        < cols0[i2][j].words.len() ==> word_convertible(
                        #[trigger] cols0[i2][j].words[k],
                    ),
            decreases n - i,
        {
            proof {
                assert(self.lattice.deep_view()[i as int] == self.lattice@[i as int].deep_view());
            }
            let cl = self.lattice[i].0.len();
            let mut new_col: Vec<MorphemeNode> = Vec::new();
            let mut j: usize = 0;
            while j < cl
                invariant
                    0 <= i < n,
                    0 <= j <= cl,
                    n == cols0.len(),
                    cols0 == old(self)@.columns,
                    self@ == old(self)@,
                    self.lattice@.len() == n,
                    cl == cols0[i as int].len(),
                    self.lattice@[i as int].deep_view() == cols0[i as int],
                    new_col.deep_view().len() == j,
                    forall|j2: int|
                        0 <= j2 < j ==> new_col.deep_view()[j2] == node_to_native(
                            #[trigger] cols0[i as int][j2],
                        ),
                    forall|j2: int, k: int|
                        0 <= j2 < j && 0 <= k < cols0[i as int][j2].words.len()
                            ==> word_convertible(#[trigger] cols0[i as int][j2].words[k]),
                decreases cl - j,
            {
                proof {
                    assert(self.lattice@[i as int].deep_view()[j as int]
                        == self.lattice@[i as int].0@[j as int]@);
                }
                let ghost ndv = cols0[i as int][j as int];
                let node = &self.lattice[i].0[j];
                let wl = node.words.len();
                let mut new_words: Vec<Word> = Vec::new();
                let mut k: usize = 0;
                while k < wl
                    invariant
                        0 <= k <= wl,
                        0 <= i < n,
                        0 <= j < cl,
                        n == cols0.len(),
                        cols0 == old(self)@.columns,
                        self@ == old(self)@,
                        self.lattice@.len() == n,
                        cl == cols0[i as int].len(),
                        self.lattice@[i as int].deep_view() == cols0[i as int],
                        ndv == cols0[i as int][j as int],
                        node == self.lattice@[i as int].0@[j as int],
                        node@ == ndv,
                        wl == ndv.words.len(),
                        new_words.deep_view().len() == k,
                        forall|k2: int|
                            0 <= k2 < k ==> new_words.deep_view()[k2] == word_to_native(
                                #[trigger] ndv.words[k2],
                            ),
                        forall|k2: int|
                            0 <= k2 < k ==> word_convertible(#[trigger] ndv.words[k2]),
                    decreases wl - k,
                {
                    proof {
                        assert(node.words.deep_view()[k as int] == node.words@[k as int]@);
                    }
                    let mut w = dup_word(&node.words[k]);
                    match w.to_manchu_letters() {
                        Ok(()) => {},
                        Err(_) => {
                            proof {
                                assert(!word_convertible(ndv.words[k as int]));
                            }
                            return Err(MorphError::ConversionError);
                        },
                    }
                    let ghost nw0 = new_words.deep_view();
                    new_words.push(w);
                    proof {
                        assert(new_words.deep_view() =~= nw0.push(w@));
                        assert(w@ == word_to_native(ndv.words[k as int]));
                    }
                    k += 1;
                }
                let category = node.category.clone();
                let emission_cost = node.emission_cost;
                let path_cost = node.path_cost;
                let left_node = node.left_node;
                let new_node = MorphemeNode { words: new_words, emission_cost, path_cost, left_node, category };
                proof {
                    assert(new_node@.words =~= node_to_native(ndv).words);
                    assert(new_node@ == node_to_native(ndv));
                }
                let ghost nc0 = new_col.deep_view();
                new_col.push(new_node);
                proof {
                    assert(new_col.deep_view() =~= nc0.push(new_node@));
                }
                j += 1;
            }
            let ghost ncols0 = new_cols.deep_view();
            new_cols.push(WordNode(new_col));
            proof {
                assert(new_cols.deep_view() =~= ncols0.push(new_cols@[i as int].deep_view()));
            }
            i += 1;
        }
        self.lattice = new_cols;
        Ok(())
    }
}

} // verus!
