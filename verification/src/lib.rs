//! Commenting on Azure DevOps pull requests on behalf of an agent: which comment threads
//! may be posted, and what exactly is posted.
//!
//! An agent's parameters ([`params`]) are validated and cleaned, held against the
//! pipeline's configuration ([`config`]) and context, and turned into a request
//! ([`execute`]). An inline comment is anchored to whole lines of a file ([`anchor`]), so
//! that a suggestion in it replaces them cleanly.
//!
//! Besides the contracts of the functions, each module states laws: proof functions that
//! say what the results must satisfy, or how the results of two calls relate. In them
//! `call_ensures(f, args, result)` reads: `f`, called on `args`, returned `result`.

pub mod anchor;
pub mod config;
pub mod execute;
pub mod json;
pub mod params;
pub mod path;
pub mod pipeline;
pub mod status;
pub mod text;
pub mod url;
