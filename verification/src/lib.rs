//! A graph of census tracts, built from food-access records.
//!
//! Each record becomes a [`Node`]; [`create_edges`] joins tracts that lie in
//! the same county and class or carry nearby tract numbers, and
//! [`calculate_degree_centrality`] picks the tract with the highest food
//! insecurity score, preferring the better connected one among equals.
//!
//! The library computes on integers and text only. A score is handed to it as
//! a [`Score`], an integer that orders as the score does.

pub mod edges;
pub mod node;
pub mod node_map;
pub mod rank;
pub mod record;
pub mod rows;
pub mod tract;

pub use edges::{
    adjacent, connects, create_edges, inferred, new_neighbors, should_add_edge,
};
pub use node::{texts, Node, NodeView, Score};
pub use node_map::{
    distinct_tracts, has_tract, index_of, inserted, joined, node_views, well_formed, NodeMap,
};
pub use rank::{
    calculate_degree_centrality, is_most_critical, leader, more_central, outranks, ranked,
    Centrality, RankError, RankedResult, RankedView,
};
pub use record::{
    build_node, built, column_of, create_nodes, field_fails, node_of, record_error, record_views,
    score_value, LoadError, MalformedRecordError, ParsedScore, Record, RecordView, ScoreField,
};
pub use rows::{csv_records, entry_view, entry_views, keep_readable, read_csv, readable, row_views};
pub use tract::{tract_number, tract_number_of};
