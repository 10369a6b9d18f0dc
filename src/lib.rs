//! The core of a retrieval-augmented question-answering assistant: a
//! deduplicated store of embedded content, the ranking that picks the records
//! relevant to a question, and the conversation that turns them into a
//! grounded prompt.
//!
//! - `database`: the store, its snapshot form, and the search over it.
//! - `ranking`: the mean-threshold filter and the best-first order.
//! - `conversation`: dialogue history, prompt assembly, the session states.
//! - `stream`: gathering a streamed reply.
//! - `normalize`: the text from which embeddings are computed.
use vstd::prelude::*;

pub mod conversation;
pub mod database;
pub mod normalize;
pub mod ranking;
pub mod stream;

verus! {

} // verus!
