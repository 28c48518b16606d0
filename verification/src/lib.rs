//! Storage engine core of a small relational database: byte-exact tuple and
//! page codecs, slotted table pages organised into table heaps, B+tree index
//! pages, and a pinning buffer pool with an LRU-K replacer over an in-memory
//! page store. Logical-plan rewrite rules of the query optimizer sit on top.

pub mod buffer_pool;
pub mod codec;
pub mod common;
pub mod disk;
pub mod error;
pub mod expression;
pub mod replacer;
pub mod scalar;
pub mod table_heap;
pub mod table_page;
pub mod executor;
pub mod index_page;
pub mod limit_project_transpose;
pub mod logical_plan;
pub mod optimizer;
pub mod physical_plan;
pub mod push_down_limit;
pub mod tuple;
