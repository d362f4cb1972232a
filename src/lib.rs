//! Retrieval core of a document chat tool: line-aligned chunking, the
//! append-only manifest that orders the vector index, incremental indexing
//! decisions, chunk resolution and the state of the terminal screens.
pub mod chat_interface;
pub mod document;
pub mod home_screen;
pub mod indexer;
pub mod manifest;
pub mod model;
pub mod query;
pub mod text;
pub mod vector_store;
pub mod wrap;

pub use chat_interface::{ChatInterface, Message};
pub use home_screen::{HomeScreen, HomeScreenAction};
pub use text::chunk_text;
pub use vector_store::VectorStore;
