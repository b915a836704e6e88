//! Turns a batch of documents into `(document, term) -> position` postings
//! ready for an external sort, with proximity-aware word positions.

pub mod asc_desc;
pub mod extract;
pub mod flatten;
pub mod positions;
