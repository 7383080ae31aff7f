//! The node of the graph: one census tract with its attributes.

use vstd::prelude::*;

verus! {

/// A food insecurity score, held as an integer that orders as the score does:
/// of two scores the greater has the greater `ordinal`, and equal scores have
/// equal ones.
#[derive(Clone, Copy, Debug, PartialEq, Eq, Structural)]
pub struct Score {
    pub ordinal: i64,
}

/// One census tract: the fields of its record, its score, and the tracts it
/// is joined to.
#[derive(Clone, Debug)]
pub struct Node {
    pub food_insecurity_score: Score,
    pub census_tract: String,
    pub county: String,
    pub urban: String,
    pub pop_2010: String,
    pub housing_units: String,
    pub group_quarters: String,
    pub vehicle_access: String,
    pub low_income: String,
    pub poverty_rate: String,
    pub median_family_income: String,
    pub no_supermarket: String,
    pub tract_kids: String,
    pub tract_seniors: String,
    pub tract_white: String,
    pub tract_black: String,
    pub tract_asian: String,
    pub tract_hispanic: String,
    pub tract_snap: String,
    pub edges: Vec<String>,
}

/// What a [`Node`] holds, as mathematical values.
pub ghost struct NodeView {
    pub food_insecurity_score: int,
    pub census_tract: Seq<char>,
    pub county: Seq<char>,
    pub urban: Seq<char>,
    pub pop_2010: Seq<char>,
    pub housing_units: Seq<char>,
    pub group_quarters: Seq<char>,
    pub vehicle_access: Seq<char>,
    pub low_income: Seq<char>,
    pub poverty_rate: Seq<char>,
    pub median_family_income: Seq<char>,
    pub no_supermarket: Seq<char>,
    pub tract_kids: Seq<char>,
    pub tract_seniors: Seq<char>,
    pub tract_white: Seq<char>,
    pub tract_black: Seq<char>,
    pub tract_asian: Seq<char>,
    pub tract_hispanic: Seq<char>,
    pub tract_snap: Seq<char>,
    pub edges: Seq<Seq<char>>,
}

/// The texts that a sequence of strings holds.
pub open spec fn texts(strings: Seq<String>) -> Seq<Seq<char>> {
    strings.map_values(|s: String| s@)
}

impl View for Node {
    type V = NodeView;

    open spec fn view(&self) -> NodeView {
        NodeView {
            food_insecurity_score: self.food_insecurity_score.ordinal as int,
            census_tract: self.census_tract@,
            county: self.county@,
            urban: self.urban@,
            pop_2010: self.pop_2010@,
            housing_units: self.housing_units@,
            group_quarters: self.group_quarters@,
            vehicle_access: self.vehicle_access@,
            low_income: self.low_income@,
            poverty_rate: self.poverty_rate@,
            median_family_income: self.median_family_income@,
            no_supermarket: self.no_supermarket@,
            tract_kids: self.tract_kids@,
            tract_seniors: self.tract_seniors@,
            tract_white: self.tract_white@,
            tract_black: self.tract_black@,
            tract_asian: self.tract_asian@,
            tract_hispanic: self.tract_hispanic@,
            tract_snap: self.tract_snap@,
            edges: texts(self.edges@),
        }
    }
}

impl NodeView {
    /// The number of tracts this one is joined to.
    pub open spec fn degree(self) -> nat {
        self.edges.len()
    }

    /// This node with other edges.
    pub open spec fn with_edges(self, edges: Seq<Seq<char>>) -> NodeView {
        NodeView { edges, ..self }
    }
}

} // verus!
