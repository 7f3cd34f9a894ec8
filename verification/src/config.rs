//! How a pipeline sets the tool up.

use vstd::prelude::*;

verus! {

/// Configuration of the tool.
#[derive(Clone, Debug)]
pub struct AddPrCommentConfig {
    /// Prefix put before all comments, such as "[Agent Review] ".
    pub comment_prefix: Option<String>,
    /// The repositories that may be commented on. If empty, all of the checkout list
    /// and "self" may.
    pub allowed_repositories: Vec<String>,
    /// The thread statuses that may be set. If empty, all valid ones may.
    pub allowed_statuses: Vec<String>,
    /// Whether the agent's execution statistics follow the comment.
    pub include_stats: bool,
}

impl Default for AddPrCommentConfig {
    fn default() -> (config: Self)
        ensures
            config.comment_prefix is None,
            config.allowed_repositories@.len() == 0,
            config.allowed_statuses@.len() == 0,
            config.include_stats,
    {
        AddPrCommentConfig {
            comment_prefix: None,
            allowed_repositories: Vec::new(),
            allowed_statuses: Vec::new(),
            include_stats: true,
        }
    }
}

} // verus!
