//! A graph editor's model: graph definitions, their construction, the
//! consistency check of a built graph, the tree layout of an acyclic graph, and
//! the editor's page and save logic.

pub mod graph_def;
pub mod graph_index;
pub mod layout;
pub mod app_state;
pub mod laws;

