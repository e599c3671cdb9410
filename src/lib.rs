//! Hybrid retrieval core of a clipboard-history store: the binary codec of
//! embeddings, the ranking of a working set by similarity, and the merge of
//! lexical and semantic candidates into one deduplicated list; besides, the
//! conversion of clips to and from table rows and the rules by which a
//! clipboard text becomes a clip.

pub mod codec;
pub mod clip;
pub mod merge;
pub mod rank;
pub mod outside;
pub mod record;
pub mod engine;
pub mod capture;
