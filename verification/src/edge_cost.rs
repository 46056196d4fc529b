//! The edge-cost table: an additive cost for each ordered pair of adjacent
//! node categories, with zero for every pair the table does not list.

use vstd::prelude::*;

use crate::text::str_eq;

verus! {

/// One row of the edge-cost table.
#[derive(Clone, Debug)]
pub struct EdgeCost {
    pub left_category: String,
    pub right_category: String,
    pub cost: i64,
}

/// Mathematical image of an `EdgeCost` row.
pub struct EdgeCostV {
    pub left_category: Seq<char>,
    pub right_category: Seq<char>,
    pub cost: int,
}

impl View for EdgeCost {
    type V = EdgeCostV;

    open spec fn view(&self) -> EdgeCostV {
        EdgeCostV {
            left_category: self.left_category@,
            right_category: self.right_category@,
            cost: self.cost as int,
        }
    }
}

impl DeepView for EdgeCost {
    type V = EdgeCostV;

    open spec fn deep_view(&self) -> EdgeCostV {
        self.view()
    }
}

impl EdgeCost {
    pub fn new(left_category: String, right_category: String, cost: i64) -> (r: EdgeCost)
        ensures
            r@ == (EdgeCostV {
                left_category: left_category@,
                right_category: right_category@,
                cost: cost as int,
            }),
    {
        EdgeCost { left_category, right_category, cost }
    }
}

/// The cost the rows assign to a pair of categories, searched from index
/// `i`: the first row naming the pair wins, and a pair no row names costs
/// nothing.
pub open spec fn edge_cost_from(rows: Seq<EdgeCostV>, l: Seq<char>, r: Seq<char>, i: int) -> int
    decreases rows.len() - i,
{
    if i < 0 || i >= rows.len() {
        0
    } else if rows[i].left_category == l && rows[i].right_category == r {
        rows[i].cost
    } else {
        edge_cost_from(rows, l, r, i + 1)
    }
}

/// The edge-cost map: rows looked up by ordered category pair.
pub struct EdgeCostMap {
    pub rows: Vec<EdgeCost>,
}

impl View for EdgeCostMap {
    type V = Seq<EdgeCostV>;

    open spec fn view(&self) -> Seq<EdgeCostV> {
        self.rows.deep_view()
    }
}

/// The cost a map assigns to a pair of categories.
pub open spec fn edge_cost_spec(m: Seq<EdgeCostV>, l: Seq<char>, r: Seq<char>) -> int {
    edge_cost_from(m, l, r, 0)
}

/// Every cost of the map lies within the bound.
pub open spec fn edge_costs_bounded(m: Seq<EdgeCostV>, b: int) -> bool {
    forall|i: int| 0 <= i < m.len() ==> -b <= (#[trigger] m[i]).cost <= b
}

/// Every cost a bounded map assigns lies within the bound.
pub proof fn lemma_edge_cost_bounded(m: Seq<EdgeCostV>, l: Seq<char>, r: Seq<char>, b: int, i: int)
    requires
        edge_costs_bounded(m, b),
        b >= 0,
    ensures
        -b <= edge_cost_from(m, l, r, i) <= b,
    decreases m.len() - i,
{
    if i < 0 || i >= m.len() {
    } else if m[i].left_category == l && m[i].right_category == r {
    } else {
        lemma_edge_cost_bounded(m, l, r, b, i + 1);
    }
}

impl EdgeCostMap {
    /// Build a map from its rows.
    pub fn from_rows(rows: Vec<EdgeCost>) -> (r: EdgeCostMap)
        ensures
            r@ == rows.deep_view(),
    {
        EdgeCostMap { rows }
    }

    /// Look up the cost of an ordered pair of categories.
    pub fn cost_of(&self, l: &str, r: &str) -> (c: i64)
        ensures
            c as int == edge_cost_spec(self@, l@, r@),
    {
        let n = self.rows.len();
        let mut i: usize = 0;
        while i < n
            invariant
                0 <= i <= n,
                n == self@.len(),
                n == self.rows@.len(),
                self@ == self.rows.deep_view(),
                edge_cost_spec(self@, l@, r@) == edge_cost_from(self@, l@, r@, i as int),
            decreases n - i,
        {
            proof {
                assert(self.rows.deep_view()[i as int] == self.rows@[i as int]@);
            }
            if str_eq(self.rows[i].left_category.as_str(), l) && str_eq(
                self.rows[i].right_category.as_str(),
                r,
            ) {
                return self.rows[i].cost;
            }
            i += 1;
        }
        0
    }
}

/// The rows of the built-in edge-cost table.
pub open spec fn edge_table_spec() -> Seq<EdgeCostV> {
    seq![
        EdgeCostV { left_category: "noun"@, right_category: "accusative"@, cost: -2 },
        EdgeCostV { left_category: "noun"@, right_category: "genitive"@, cost: -2 },
        EdgeCostV { left_category: "noun"@, right_category: "dative_locative"@, cost: -2 },
        EdgeCostV { left_category: "noun"@, right_category: "instrumental"@, cost: -2 },
        EdgeCostV { left_category: "accusative"@, right_category: "imperfective_finite"@, cost: -2 },
        EdgeCostV { left_category: "accusative"@, right_category: "perfective_converb"@, cost: -2 },
        EdgeCostV { left_category: "genitive"@, right_category: "noun"@, cost: -2 },
        EdgeCostV { left_category: "adverb"@, right_category: "imperfective_finite"@, cost: -1 },
        EdgeCostV { left_category: "perfective_converb"@, right_category: "noun"@, cost: -1 },
    ]
}

/// The built-in edge-cost map.
pub fn get_edge_cost_map() -> (r: EdgeCostMap)
    ensures
        r@ == edge_table_spec(),
        edge_costs_bounded(r@, 2),
{
    let mut rows: Vec<EdgeCost> = Vec::new();
    rows.push(
        EdgeCost::new(String::from_str("noun"), String::from_str("accusative"), -2),
    );
    rows.push(EdgeCost::new(String::from_str("noun"), String::from_str("genitive"), -2));
    rows.push(
        EdgeCost::new(String::from_str("noun"), String::from_str("dative_locative"), -2),
    );
    rows.push(
        EdgeCost::new(String::from_str("noun"), String::from_str("instrumental"), -2),
    );
    rows.push(
        EdgeCost::new(
            String::from_str("accusative"),
            String::from_str("imperfective_finite"),
            -2,
        ),
    );
    rows.push(
        EdgeCost::new(
            String::from_str("accusative"),
            String::from_str("perfective_converb"),
            -2,
        ),
    );
    rows.push(EdgeCost::new(String::from_str("genitive"), String::from_str("noun"), -2));
    rows.push(
        EdgeCost::new(
            String::from_str("adverb"),
            String::from_str("imperfective_finite"),
            -1,
        ),
    );
    rows.push(
        EdgeCost::new(String::from_str("perfective_converb"), String::from_str("noun"), -1),
    );
    proof {
        assert(rows.deep_view() =~= edge_table_spec());
    }
    EdgeCostMap::from_rows(rows)
}

} // verus!
