//! In-memory stores of the model and their invariants.

pub mod active_set;
pub mod assoc;
pub mod edge_key;
pub mod exe_map_index;
pub mod markov_graph;
pub mod records;
pub mod state;

pub use active_set::ActiveSet;
pub use edge_key::EdgeKey;
pub use exe_map_index::ExeMapIndex;
pub use markov_graph::MarkovGraph;
pub use records::{ExeStore, MapStore};
pub use state::{BadExe, Stores, StoresView};
