//! Verified adapter logic of the ResourceFS source crate: the GitHub wire
//! checks and renderings, the pagination Link grammar, the creation-document
//! frontmatter grammar, HTTP retry and admission policy, the reader-mode
//! Markdown state machine and the workspace discovery budget.
use vstd::prelude::*;

pub mod error;
pub mod text;
pub mod workspace;
pub mod http;
pub mod github_wire;
pub mod github;
pub mod order;
pub mod render;
pub mod resource;
pub mod link;
pub mod frontmatter;
pub mod mutation;
pub mod markdown;
pub mod roots;
pub mod facts;
pub mod identity;
pub mod collection;
pub mod records;
pub mod objects;
pub mod cursor;
pub mod request;
pub mod fetch;
pub mod paths;


verus! {

} // verus!
