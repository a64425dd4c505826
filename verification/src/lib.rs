//! A typed persistence layer over an embedded, ordered, byte-oriented
//! key-value store.
//!
//! Callers store and retrieve strongly typed records under UTF-8 string
//! keys. A raw accessor (`db::get_from_tree` and friends) talks to one
//! named tree of the store engine through a trusted boundary
//! (`store::StoreTree`), translating engine failures into the error
//! taxonomy of `errors::DatabaseError`. A typed codec layer (`db::get`,
//! `db::get_all`, `db::get_last`, `db::set`, `db::delete`) adds binary
//! serialization via the `codec::Codec` trait on top.
//!
//! "Last" always means the lexicographically greatest byte key
//! (`order::lex_lt`), never the most recently inserted record; callers
//! who need "last = greatest sequence number" should key their records
//! with `keys::sequence_key`, whose encoding provably preserves numeric
//! order.

pub mod codec;
pub mod db;
pub mod errors;
pub mod keys;
pub mod order;
pub mod store;
