//! Posting a comment thread: what is checked before, what is sent, and what the
//! answer means. Reading the commented file and talking to the server are left to
//! the caller, who performs them between the steps.
//!
//! 1. [`AddPrCommentResult::plan`] decides whether the thread may be posted.
//! 2. The caller reads the file of [`ThreadPlan::anchor`], if there is one, and
//!    [`ThreadPlan::thread_body`] gives the body of the request.
//! 3. The caller posts it, and [`AddPrCommentResult::conclude`] turns the reply into
//!    the result.

use crate::anchor::{
    anchored_text, apply_suggestion, closes_line, end_offset_of_line, ends_with_line, feeds_in,
    inline_thread_context, is_line_ending, law_applied_suggestion_touches_its_lines_alone,
    law_measured_offset_is_past_the_line, law_suggestion_replaces_whole_lines,
    lemma_context_places_range, line_end_offset, line_start, places_range, thread_context_view,
    through_line_feed,
};
use crate::config::AddPrCommentConfig;
use crate::json::{
    json_array, json_as_i64, json_get, json_integer, json_object, json_set, json_text, json_view,
    JsonView,
};
use crate::params::{AddPrCommentParams, AddPrCommentResult};
use crate::path::{
    file_path_error, leads_down, lemma_parent_component, validate_file_path, FilePathError,
};
use crate::status::{
    is_status_allowed, lemma_listed_status, lemma_status_number, lemma_valid_statuses_text,
    spells_status, status_allowed, status_number, status_to_int, valid_status_texts,
    valid_statuses_text,
};
use crate::text::{decimal, is_same_word, joined, push_decimal, str_eq, texts_of};
use crate::url::{threads_url, threads_url_text};
use vstd::prelude::*;

verus! {

/// A repository of the checkout list: the alias that agents use, and its name.
#[derive(Debug)]
pub struct AllowedRepository {
    pub alias: String,
    pub name: String,
}

/// What is known about the pipeline that runs the tool.
pub struct ExecutionContext {
    pub ado_org_url: Option<String>,
    pub ado_project: Option<String>,
    pub access_token: Option<String>,
    /// The name of the pipeline's own repository.
    pub repository_name: Option<String>,
    /// The checkout list.
    pub allowed_repositories: Vec<AllowedRepository>,
    /// The agent's execution statistics, as text to put after a comment.
    pub agent_stats: Option<String>,
}

/// How running the tool ended.
#[derive(Debug)]
pub struct ExecutionResult {
    pub success: bool,
    pub message: String,
    pub data: Option<serde_json::Value>,
}

impl ExecutionResult {
    /// The tool did not do what was asked.
    pub fn failure(message: String) -> (result: Self)
        ensures
            !result.success,
            result.message == message,
            result.data is None,
    {
        ExecutionResult { success: false, message, data: None }
    }

    /// The tool did what was asked, and reports on it.
    pub fn success_with_data(message: String, data: serde_json::Value) -> (result: Self)
        ensures
            result.success,
            result.message == message,
            result.data == Some(data),
    {
        ExecutionResult { success: true, message, data: Some(data) }
    }
}

/// Why running the tool broke off.
#[derive(Clone, Copy, Debug, PartialEq, Eq, Structural)]
pub enum ExecuteError {
    OrgUrlNotSet,
    ProjectNotSet,
    TokenNotSet,
    RepositoryNameNotSet,
    RequestNotSent,
    ResponseNotJson,
}

impl ExecuteError {
    /// What the message of the error says.
    pub open spec fn message_text(self) -> Seq<char> {
        match self {
            ExecuteError::OrgUrlNotSet => "AZURE_DEVOPS_ORG_URL not set"@,
            ExecuteError::ProjectNotSet => "SYSTEM_TEAMPROJECT not set"@,
            ExecuteError::TokenNotSet =>
                "No access token available (SYSTEM_ACCESSTOKEN or AZURE_DEVOPS_EXT_PAT)"@,
            ExecuteError::RepositoryNameNotSet =>
                "BUILD_REPOSITORY_NAME not set and repository is 'self'"@,
            ExecuteError::RequestNotSent => "Failed to send request to Azure DevOps"@,
            ExecuteError::ResponseNotJson => "Failed to parse response JSON"@,
        }
    }

    /// The error in words.
    pub fn message(&self) -> (text: String)
        ensures
            text@ == self.message_text(),
    {
        match self {
            ExecuteError::OrgUrlNotSet => "AZURE_DEVOPS_ORG_URL not set".to_owned(),
            ExecuteError::ProjectNotSet => "SYSTEM_TEAMPROJECT not set".to_owned(),
            ExecuteError::TokenNotSet =>
                "No access token available (SYSTEM_ACCESSTOKEN or AZURE_DEVOPS_EXT_PAT)".to_owned(),
            ExecuteError::RepositoryNameNotSet =>
                "BUILD_REPOSITORY_NAME not set and repository is 'self'".to_owned(),
            ExecuteError::RequestNotSent => "Failed to send request to Azure DevOps".to_owned(),
            ExecuteError::ResponseNotJson => "Failed to parse response JSON".to_owned(),
        }
    }
}

/// Why a thread is not posted.
#[derive(Clone, Copy, Debug, PartialEq, Eq, Structural)]
pub enum Refusal {
    RepositoryNotAllowed,
    StatusNotAllowed,
    UnknownStatus,
    FilePath(FilePathError),
    UnknownAlias,
}

/// Where an inline comment is anchored: the lines of a file.
#[derive(Debug)]
pub struct CommentAnchor {
    pub file_path: String,
    pub start_line: i32,
    pub end_line: i32,
}

/// A thread that may be posted.
pub struct ThreadPlan {
    /// Where the request goes.
    pub url: String,
    /// The token that it carries.
    pub token: String,
    /// The project and the repository that the thread belongs to.
    pub project: String,
    pub repository: String,
    /// The text of the comment, and the number of the thread's status.
    pub comment: String,
    pub status: i32,
    /// Where the comment is anchored, if it is inline.
    pub anchor: Option<CommentAnchor>,
}

/// What is to be done about a thread.
pub enum Decision {
    Refuse(ExecutionResult),
    Post(ThreadPlan),
}

/// What came back on the request.
#[derive(Debug)]
pub enum Reply {
    /// The request did not reach the server.
    NotSent,
    /// The server accepted, and its answer is no JSON.
    NotJson,
    /// The server accepted, with this answer.
    Created(serde_json::Value),
    /// The server did not accept: its status line, and its answer if it could be read.
    Rejected { status: String, body: Option<String> },
}

/// How the checks before a request end.
pub enum Verdict {
    Fails(ExecuteError),
    Refuses(Refusal),
    Posts,
}

/// The name of the first repository in the list with this alias.
pub open spec fn name_for_alias(allowed: Seq<AllowedRepository>, alias: Seq<char>) -> Option<
    Seq<char>,
>
    decreases allowed.len(),
{
    if allowed.len() == 0 {
        None
    } else if allowed[0].alias@ == alias {
        Some(allowed[0].name@)
    } else {
        name_for_alias(allowed.drop_first(), alias)
    }
}

/// The name of the repository with this alias, if the list has one.
pub fn lookup_allowed_repository<'a>(
    alias: &str,
    allowed: &'a Vec<AllowedRepository>,
) -> (name: Option<&'a String>)
    ensures
        match name {
            Some(found) => name_for_alias(allowed@, alias@) == Some(found@),
            None => name_for_alias(allowed@, alias@) is None,
        },
{
    let mut i: usize = 0;
    proof {
        assert(allowed@.skip(0) =~= allowed@);
    }
    while i < allowed.len()
        invariant
            i <= allowed@.len(),
            name_for_alias(allowed@, alias@) == name_for_alias(allowed@.skip(i as int), alias@),
        decreases allowed@.len() - i,
    {
        if str_eq(allowed[i].alias.as_str(), alias) {
            return Some(&allowed[i].name);
        }
        proof {
            assert(allowed@.skip(i as int).drop_first() =~= allowed@.skip(i + 1));
        }
        i = i + 1;
    }
    None
}

/// Whether a list of allowed repositories lets this one through: an empty list lets
/// every repository through.
pub open spec fn repository_allowed(allowed: Seq<Seq<char>>, repository: Seq<char>) -> bool {
    allowed.len() == 0 || allowed.contains(repository)
}

/// Whether a list of allowed repositories lets this one through.
pub fn is_repository_allowed(allowed: &Vec<String>, repository: &str) -> (permitted: bool)
    ensures
        permitted == repository_allowed(texts_of(allowed@), repository@),
{
    if allowed.len() == 0 {
        return true;
    }
    for i in 0..allowed.len()
        invariant
            allowed@.len() > 0,
            forall|j: int| 0 <= j < i ==> #[trigger] texts_of(allowed@)[j] != repository@,
    {
        if str_eq(allowed[i].as_str(), repository) {
            proof {
                assert(texts_of(allowed@)[i as int] == repository@);
            }
            return true;
        }
    }
    false
}

/// A comment, followed by the statistics where they are wanted and there are any.
pub open spec fn with_stats(body: Seq<char>, stats: Option<String>, wanted: bool) -> Seq<char> {
    match stats {
        Some(text) if wanted => body + text@,
        _ => body,
    }
}

/// Puts the agent's execution statistics after a comment where they are wanted.
pub fn append_stats_to_body(body: &str, ctx: &ExecutionContext, include_stats: bool) -> (text:
    String)
    ensures
        text@ == with_stats(body@, ctx.agent_stats, include_stats),
{
    let mut text = body.to_owned();
    if include_stats {
        if let Some(stats) = &ctx.agent_stats {
            text.append(stats.as_str());
        }
    }
    text
}

/// A comment after its prefix.
pub open spec fn with_prefix(prefix: Option<String>, content: Seq<char>) -> Seq<char> {
    match prefix {
        Some(text) => text@ + content,
        None => content,
    }
}

impl AddPrCommentResult {
    /// Whether the thread is for the pipeline's own repository.
    pub open spec fn is_for_self(&self) -> bool {
        self.repository@ == "self"@ || self.repository@.len() == 0
    }

    /// The name of the repository that the thread is for.
    pub open spec fn repository_name(&self, ctx: ExecutionContext) -> Option<Seq<char>> {
        if self.is_for_self() {
            match ctx.repository_name {
                Some(name) => Some(name@),
                None => None,
            }
        } else {
            name_for_alias(ctx.allowed_repositories@, self.repository@)
        }
    }

    /// How the checks before a request end, in the order in which they are made.
    pub open spec fn verdict(&self, ctx: ExecutionContext, config: AddPrCommentConfig) -> Verdict {
        if ctx.ado_org_url is None {
            Verdict::Fails(ExecuteError::OrgUrlNotSet)
        } else if ctx.ado_project is None {
            Verdict::Fails(ExecuteError::ProjectNotSet)
        } else if ctx.access_token is None {
            Verdict::Fails(ExecuteError::TokenNotSet)
        } else if !repository_allowed(texts_of(config.allowed_repositories@), self.repository@) {
            Verdict::Refuses(Refusal::RepositoryNotAllowed)
        } else if !status_allowed(texts_of(config.allowed_statuses@), self.status@) {
            Verdict::Refuses(Refusal::StatusNotAllowed)
        } else if status_number(self.status@) is None {
            Verdict::Refuses(Refusal::UnknownStatus)
        } else if self.file_path is Some && file_path_error(self.file_path->Some_0@) is Some {
            Verdict::Refuses(
                Refusal::FilePath(file_path_error(self.file_path->Some_0@)->Some_0),
            )
        } else if self.repository_name(ctx) is Some {
            Verdict::Posts
        } else if self.is_for_self() {
            Verdict::Fails(ExecuteError::RepositoryNameNotSet)
        } else {
            Verdict::Refuses(Refusal::UnknownAlias)
        }
    }

    /// What the message of a refusal says.
    pub open spec fn refusal_text(&self, refusal: Refusal) -> Seq<char> {
        match refusal {
            Refusal::RepositoryNotAllowed => "Repository '"@ + self.repository@
                + "' is not in the allowed-repositories list"@,
            Refusal::StatusNotAllowed => "Status '"@ + self.status@
                + "' is not in the allowed-statuses list"@,
            Refusal::UnknownStatus => "Invalid status '"@ + self.status@ + "'. Valid statuses: "@
                + joined(valid_status_texts(), ", "@),
            Refusal::FilePath(error) => "Invalid file_path: "@ + error.message_text(),
            Refusal::UnknownAlias => "Repository alias '"@ + self.repository@
                + "' not found in allowed repositories"@,
        }
    }

    /// The result of a thread that is not posted.
    fn refuse(&self, refusal: Refusal) -> (result: ExecutionResult)
        ensures
            !result.success,
            result.message@ == self.refusal_text(refusal),
            result.data is None,
    {
        let mut message = String::new();
        match refusal {
            Refusal::RepositoryNotAllowed => {
                message.append("Repository '");
                message.append(self.repository.as_str());
                message.append("' is not in the allowed-repositories list");
            },
            Refusal::StatusNotAllowed => {
                message.append("Status '");
                message.append(self.status.as_str());
                message.append("' is not in the allowed-statuses list");
            },
            Refusal::UnknownStatus => {
                message.append("Invalid status '");
                message.append(self.status.as_str());
                message.append("'. Valid statuses: ");
                message.append(valid_statuses_text().as_str());
            },
            Refusal::FilePath(error) => {
                message.append("Invalid file_path: ");
                message.append(error.message().as_str());
            },
            Refusal::UnknownAlias => {
                message.append("Repository alias '");
                message.append(self.repository.as_str());
                message.append("' not found in allowed repositories");
            },
        }
        proof {
            assert(message@ =~= self.refusal_text(refusal));
        }
        ExecutionResult::failure(message)
    }

    /// The anchor is the one that the thread asks for: without a line the first line of
    /// the file, and without a first line the last one alone.
    pub open spec fn anchors_at(&self, anchor: Option<CommentAnchor>) -> bool {
        match (self.file_path, anchor) {
            (None, None) => true,
            (Some(path), Some(place)) => {
                &&& place.file_path == path
                &&& place.end_line == self.line.unwrap_or(1)
                &&& place.start_line == self.start_line.unwrap_or(place.end_line)
            },
            _ => false,
        }
    }

    /// The plan is the one that the thread asks for.
    pub open spec fn is_planned(
        &self,
        ctx: ExecutionContext,
        config: AddPrCommentConfig,
        plan: ThreadPlan,
    ) -> bool {
        &&& plan.url@ == threads_url_text(
            ctx.ado_org_url->Some_0@,
            ctx.ado_project->Some_0@,
            self.repository_name(ctx)->Some_0,
            self.pull_request_id as int,
        )
        &&& plan.token == ctx.access_token->Some_0
        &&& plan.project == ctx.ado_project->Some_0
        &&& plan.repository@ == self.repository_name(ctx)->Some_0
        &&& plan.comment@ == with_stats(
            with_prefix(config.comment_prefix, self.content@),
            ctx.agent_stats,
            config.include_stats,
        )
        &&& Some(plan.status) == status_number(self.status@)
        &&& self.anchors_at(plan.anchor)
    }

    /// Decides whether the thread may be posted, and how.
    pub fn plan(&self, ctx: &ExecutionContext, config: &AddPrCommentConfig) -> (decision: Result<
        Decision,
        ExecuteError,
    >)
        ensures
            match self.verdict(*ctx, *config) {
                Verdict::Fails(error) => decision == Err::<Decision, ExecuteError>(error),
                Verdict::Refuses(refusal) => {
                    &&& decision matches Ok(Decision::Refuse(result))
                    &&& !result.success
                    &&& result.message@ == self.refusal_text(refusal)
                    &&& result.data is None
                },
                Verdict::Posts => {
                    &&& decision matches Ok(Decision::Post(plan))
                    &&& self.is_planned(*ctx, *config, plan)
                },
            },
    {
        let org_url = match &ctx.ado_org_url {
            Some(url) => url,
            None => return Err(ExecuteError::OrgUrlNotSet),
        };
        let project = match &ctx.ado_project {
            Some(project) => project,
            None => return Err(ExecuteError::ProjectNotSet),
        };
        let token = match &ctx.access_token {
            Some(token) => token,
            None => return Err(ExecuteError::TokenNotSet),
        };
        if !is_repository_allowed(&config.allowed_repositories, self.repository.as_str()) {
            return Ok(Decision::Refuse(self.refuse(Refusal::RepositoryNotAllowed)));
        }
        if !is_status_allowed(&config.allowed_statuses, self.status.as_str()) {
            return Ok(Decision::Refuse(self.refuse(Refusal::StatusNotAllowed)));
        }
        let status: i32 = match status_to_int(self.status.as_str()) {
            Some(number) => number,
            None => return Ok(Decision::Refuse(self.refuse(Refusal::UnknownStatus))),
        };
        if let Some(path) = &self.file_path {
            if let Err(error) = validate_file_path(path.as_str()) {
                return Ok(Decision::Refuse(self.refuse(Refusal::FilePath(error))));
            }
        }
        let repository: String = if str_eq(self.repository.as_str(), "self")
            || self.repository.as_str().is_empty() {
            match &ctx.repository_name {
                Some(name) => name.clone(),
                None => return Err(ExecuteError::RepositoryNameNotSet),
            }
        } else {
            match lookup_allowed_repository(
                self.repository.as_str(),
                &ctx.allowed_repositories,
            ) {
                Some(name) => name.clone(),
                None => return Ok(Decision::Refuse(self.refuse(Refusal::UnknownAlias))),
            }
        };
        let body: String = match &config.comment_prefix {
            Some(prefix) => prefix.clone().concat(self.content.as_str()),
            None => self.content.clone(),
        };
        let comment = append_stats_to_body(body.as_str(), ctx, config.include_stats);
        let url = threads_url(
            org_url.as_str(),
            project.as_str(),
            repository.as_str(),
            self.pull_request_id,
        );
        let anchor = match &self.file_path {
            Some(path) => {
                let end_line: i32 = match self.line {
                    Some(line) => line,
                    None => 1,
                };
                let start_line: i32 = match self.start_line {
                    Some(line) => line,
                    None => end_line,
                };
                Some(CommentAnchor { file_path: path.clone(), start_line, end_line })
            },
            None => None,
        };
        Ok(
            Decision::Post(
                ThreadPlan {
                    url,
                    token: token.clone(),
                    project: project.clone(),
                    repository,
                    comment,
                    status,
                    anchor,
                },
            ),
        )
    }
}

/// The end offset of an anchor whose last line is `line`: measured in the file, or one
/// where the line cannot be measured.
pub open spec fn anchor_end_offset(contents: Option<&str>, line: int) -> int {
    match contents {
        Some(text) => match end_offset_of_line(text@, line) {
            Some(offset) if offset <= usize::MAX => offset as int,
            _ => 1,
        },
        None => 1,
    }
}

/// The JSON object of a comment.
pub open spec fn comment_view(comment: Seq<char>) -> JsonView {
    JsonView::Object(
        map![
            "parentCommentId"@ => JsonView::Integer(0),
            "content"@ => JsonView::Text(comment),
            "commentType"@ => JsonView::Integer(1),
        ],
    )
}

/// The JSON object of a thread with one comment, and with a context where it is
/// inline.
pub open spec fn thread_body_view(
    comment: Seq<char>,
    status: int,
    context: Option<JsonView>,
) -> JsonView {
    let thread = map![
        "comments"@ => JsonView::Array(seq![comment_view(comment)]),
        "status"@ => JsonView::Integer(status),
    ];
    JsonView::Object(
        match context {
            Some(place) => thread.insert("threadContext"@, place),
            None => thread,
        },
    )
}

impl ThreadPlan {
    /// The JSON object of the place where the comment is anchored.
    pub open spec fn context_view(&self, contents: Option<&str>) -> Option<JsonView> {
        match self.anchor {
            Some(place) => Some(
                thread_context_view(
                    place.file_path@,
                    place.start_line as int,
                    place.end_line as int,
                    anchor_end_offset(contents, place.end_line as int),
                ),
            ),
            None => None,
        }
    }

    /// The body of the request. `contents` is what the file of the anchor holds, or
    /// `None` where it could not be read or the comment is not inline.
    pub fn thread_body(&self, contents: Option<&str>) -> (body: serde_json::Value)
        ensures
            json_view(body) == thread_body_view(
                self.comment@,
                self.status as int,
                self.context_view(contents),
            ),
    {
        let mut comment = json_object();
        json_set(&mut comment, "parentCommentId", json_integer(0));
        json_set(&mut comment, "content", json_text(self.comment.as_str()));
        json_set(&mut comment, "commentType", json_integer(1));
        proof {
            assert(json_view(comment)->Object_0 =~= comment_view(self.comment@)->Object_0);
        }
        let mut comments: Vec<serde_json::Value> = Vec::new();
        comments.push(comment);
        proof {
            assert(comments@.map_values(|item: serde_json::Value| json_view(item)) =~= seq![
                comment_view(self.comment@),
            ]);
        }
        let mut body = json_object();
        json_set(&mut body, "comments", json_array(comments));
        json_set(&mut body, "status", json_integer(self.status as i64));
        proof {
            assert(json_view(body)->Object_0 =~= thread_body_view(
                self.comment@,
                self.status as int,
                None,
            )->Object_0);
        }
        if let Some(place) = &self.anchor {
            let end_offset: usize = match line_end_offset(contents, place.end_line) {
                Some(offset) => offset,
                None => 1,
            };
            json_set(
                &mut body,
                "threadContext",
                inline_thread_context(
                    place.file_path.as_str(),
                    place.start_line,
                    place.end_line,
                    end_offset,
                ),
            );
        }
        body
    }
}

/// Whether the server accepted, by the status code of its reply.
pub fn is_success_status(code: u16) -> (accepted: bool)
    ensures
        accepted == (200 <= code < 300),
{
    200 <= code && code < 300
}

/// The number of the thread that an answer names: its member `id` where that is an
/// integer of 64 bits, or zero.
pub open spec fn thread_id_in(answer: JsonView) -> int {
    match answer {
        JsonView::Object(members) if members.dom().contains("id"@) => match members["id"@] {
            JsonView::Integer(id) if i64::MIN <= id <= i64::MAX => id,
            _ => 0,
        },
        _ => 0,
    }
}

/// The number of the thread that an answer names.
pub fn thread_id_of(answer: &serde_json::Value) -> (id: i64)
    ensures
        id == thread_id_in(json_view(*answer)),
{
    match json_get(answer, "id") {
        Some(member) => match json_as_i64(member) {
            Some(id) => id,
            None => 0,
        },
        None => 0,
    }
}

impl AddPrCommentResult {
    /// The JSON object that reports on a posted thread.
    pub open spec fn report_view(&self, plan: ThreadPlan, thread_id: int) -> JsonView {
        JsonView::Object(
            map![
                "thread_id"@ => JsonView::Integer(thread_id),
                "pull_request_id"@ => JsonView::Integer(self.pull_request_id as int),
                "repository"@ => JsonView::Text(plan.repository@),
                "project"@ => JsonView::Text(plan.project@),
                "status"@ => JsonView::Text(self.status@),
            ],
        )
    }

    /// Turns what came back on the request into the result.
    pub fn conclude(&self, plan: &ThreadPlan, reply: Reply) -> (result: Result<
        ExecutionResult,
        ExecuteError,
    >)
        ensures
            match reply {
                Reply::NotSent => result == Err::<ExecutionResult, ExecuteError>(
                    ExecuteError::RequestNotSent,
                ),
                Reply::NotJson => result == Err::<ExecutionResult, ExecuteError>(
                    ExecuteError::ResponseNotJson,
                ),
                Reply::Created(answer) => {
                    &&& result matches Ok(outcome)
                    &&& outcome.success
                    &&& outcome.message@ == "Added comment thread #"@ + decimal(
                        thread_id_in(json_view(answer)),
                    ) + " to PR #"@ + decimal(self.pull_request_id as int)
                    &&& outcome.data matches Some(data)
                    &&& json_view(data) == self.report_view(
                        *plan,
                        thread_id_in(json_view(answer)),
                    )
                },
                Reply::Rejected { status, body } => {
                    &&& result matches Ok(outcome)
                    &&& !outcome.success
                    &&& outcome.message@ == "Failed to add comment to PR #"@ + decimal(
                        self.pull_request_id as int,
                    ) + " (HTTP "@ + status@ + "): "@ + match body {
                        Some(text) => text@,
                        None => "Unknown error"@,
                    }
                    &&& outcome.data is None
                },
            },
    {
        match reply {
            Reply::NotSent => Err(ExecuteError::RequestNotSent),
            Reply::NotJson => Err(ExecuteError::ResponseNotJson),
            Reply::Created(answer) => {
                let thread_id = thread_id_of(&answer);
                let mut message = "Added comment thread #".to_owned();
                push_decimal(&mut message, thread_id);
                message.append(" to PR #");
                push_decimal(&mut message, self.pull_request_id as i64);
                let mut report = json_object();
                json_set(&mut report, "thread_id", json_integer(thread_id));
                json_set(
                    &mut report,
                    "pull_request_id",
                    json_integer(self.pull_request_id as i64),
                );
                json_set(&mut report, "repository", json_text(plan.repository.as_str()));
                json_set(&mut report, "project", json_text(plan.project.as_str()));
                json_set(&mut report, "status", json_text(self.status.as_str()));
                proof {
                    assert(json_view(report)->Object_0 =~= self.report_view(
                        *plan,
                        thread_id as int,
                    )->Object_0);
                }
                Ok(ExecutionResult::success_with_data(message, report))
            },
            Reply::Rejected { status, body } => {
                let mut message = "Failed to add comment to PR #".to_owned();
                push_decimal(&mut message, self.pull_request_id as i64);
                message.append(" (HTTP ");
                message.append(status.as_str());
                message.append("): ");
                match &body {
                    Some(text) => message.append(text.as_str()),
                    None => message.append("Unknown error"),
                }
                Ok(ExecutionResult::failure(message))
            },
        }
    }
}

/// The context names the organization and the project, and carries a token.
pub open spec fn can_reach_server(ctx: ExecutionContext) -> bool {
    ctx.ado_org_url is Some && ctx.ado_project is Some && ctx.access_token is Some
}

/// A thread is posted exactly where every check passes, whatever their order: the
/// server can be reached, the configuration allows the repository and the status, the
/// status is known, the path is acceptable, and the repository has a name.
pub proof fn law_posted_where_every_check_passes(
    request: AddPrCommentResult,
    ctx: ExecutionContext,
    config: AddPrCommentConfig,
)
    ensures
        request.verdict(ctx, config) is Posts <==> {
            &&& can_reach_server(ctx)
            &&& repository_allowed(texts_of(config.allowed_repositories@), request.repository@)
            &&& status_allowed(texts_of(config.allowed_statuses@), request.status@)
            &&& status_number(request.status@) is Some
            &&& request.file_path is Some ==> file_path_error(
                request.file_path->Some_0@,
            ) is None
            &&& request.repository_name(ctx) is Some
        },
{
}

/// Parameters that were accepted are posted wherever the server can be reached, the
/// configuration allows the repository and the status, and the repository has a name.
pub proof fn law_accepted_parameters_are_posted(
    params: AddPrCommentParams,
    request: AddPrCommentResult,
    ctx: ExecutionContext,
    config: AddPrCommentConfig,
)
    requires
        params.is_valid(),
        request.holds(params),
        can_reach_server(ctx),
        repository_allowed(texts_of(config.allowed_repositories@), request.repository@),
        status_allowed(texts_of(config.allowed_statuses@), request.status@),
        request.repository_name(ctx) is Some,
    ensures
        request.verdict(ctx, config) is Posts,
{
}

/// Empty lists restrict nothing: every repository and every status gets past them.
pub proof fn law_empty_lists_restrict_nothing(
    config: AddPrCommentConfig,
    repository: Seq<char>,
    status: Seq<char>,
)
    requires
        config.allowed_repositories@.len() == 0,
        config.allowed_statuses@.len() == 0,
    ensures
        repository_allowed(texts_of(config.allowed_repositories@), repository),
        status_allowed(texts_of(config.allowed_statuses@), status),
{
}

/// Applying a suggestion on a posted thread whose last line the file has replaces whole
/// lines: the range that was sent takes out the lines from the first to the last and
/// leaves the ending of the last.
pub proof fn law_posted_suggestion_replaces_whole_lines(
    plan: ThreadPlan,
    contents: &str,
    suggestion: Seq<char>,
)
    requires
        plan.anchor is Some,
        1 <= plan.anchor->Some_0.start_line <= plan.anchor->Some_0.end_line,
        end_offset_of_line(contents@, plan.anchor->Some_0.end_line as int) is Some,
        end_offset_of_line(contents@, plan.anchor->Some_0.end_line as int)->Some_0 <= usize::MAX,
    ensures
        ({
            let place = plan.anchor->Some_0;
            let first = place.start_line as int;
            let last = place.end_line as int;
            let offset = anchor_end_offset(Some(contents), last);
            let from = line_start(contents@, (first - 1) as nat);
            let to = line_start(contents@, (last - 1) as nat) + anchored_text(
                contents@,
                last,
            )->Some_0.len();
            &&& plan.context_view(Some(contents)) == Some(
                thread_context_view(place.file_path@, first, last, offset),
            )
            &&& apply_suggestion(contents@, first, last, offset, suggestion) == contents@.take(from)
                + suggestion + contents@.skip(to)
            &&& from == 0 || contents@[from - 1] == '\n'
            &&& is_line_ending(through_line_feed(contents@.skip(to)))
        }),
{
    law_suggestion_replaces_whole_lines(
        contents@,
        plan.anchor->Some_0.start_line as int,
        plan.anchor->Some_0.end_line as int,
        suggestion,
    );
}

/// A posted thread holds the one comment and the status, and a context exactly where the
/// comment is inline.
pub proof fn law_thread_body_reads_back(
    comment: Seq<char>,
    status: int,
    context: Option<JsonView>,
)
    ensures
        ({
            let thread = thread_body_view(comment, status, context)->Object_0;
            let posted = comment_view(comment)->Object_0;
            &&& thread["comments"@] == JsonView::Array(seq![comment_view(comment)])
            &&& posted["content"@] == JsonView::Text(comment)
            &&& posted["parentCommentId"@] == JsonView::Integer(0)
            &&& posted["commentType"@] == JsonView::Integer(1)
            &&& thread["status"@] == JsonView::Integer(status)
            &&& thread.dom().contains("threadContext"@) <==> context is Some
            &&& context is Some ==> thread["threadContext"@] == context->Some_0
        }),
{
    reveal_strlit("comments");
    reveal_strlit("status");
    reveal_strlit("threadContext");
    reveal_strlit("content");
    reveal_strlit("parentCommentId");
    reveal_strlit("commentType");
    assert("comments"@.len() == 8 && "status"@.len() == 6 && "threadContext"@.len() == 13);
    assert("content"@.len() == 7 && "parentCommentId"@.len() == 15 && "commentType"@.len() == 11);
}

/// A report on a posted thread gives the thread's number, the pull request, the
/// repository, the project and the status under their own names.
pub proof fn law_report_reads_back(request: AddPrCommentResult, plan: ThreadPlan, thread_id: int)
    ensures
        ({
            let report = request.report_view(plan, thread_id)->Object_0;
            &&& report["thread_id"@] == JsonView::Integer(thread_id)
            &&& report["pull_request_id"@] == JsonView::Integer(request.pull_request_id as int)
            &&& report["repository"@] == JsonView::Text(plan.repository@)
            &&& report["project"@] == JsonView::Text(plan.project@)
            &&& report["status"@] == JsonView::Text(request.status@)
        }),
{
    reveal_strlit("thread_id");
    reveal_strlit("pull_request_id");
    reveal_strlit("repository");
    reveal_strlit("project");
    reveal_strlit("status");
    assert("thread_id"@.len() == 9 && "pull_request_id"@.len() == 15 && "repository"@.len() == 10);
    assert("project"@.len() == 7 && "status"@.len() == 6);
}

/// One of the strings is this text, character by character.
pub open spec fn is_listed(list: Seq<String>, text: Seq<char>) -> bool {
    exists|i: int| 0 <= i < list.len() && (#[trigger] list[i])@ == text
}

/// One of the strings has the same letters as this text.
pub open spec fn is_listed_in_any_case(list: Seq<String>, text: Seq<char>) -> bool {
    exists|i: int| 0 <= i < list.len() && is_same_word((#[trigger] list[i])@, text)
}

/// A list of allowed repositories that is not empty lets those through that it names,
/// character by character, and no other: no name is exempt.
pub proof fn law_listed_repositories_alone_are_allowed(
    allowed: Vec<String>,
    repository: &str,
    permitted: bool,
)
    requires
        call_ensures(is_repository_allowed, (&allowed, repository), permitted),
    ensures
        permitted <==> allowed@.len() == 0 || is_listed(allowed@, repository@),
{
    lemma_listed_repository(allowed@, repository@);
}

proof fn lemma_listed_repository(allowed: Seq<String>, repository: Seq<char>)
    ensures
        repository_allowed(texts_of(allowed), repository) <==> allowed.len() == 0 || is_listed(
            allowed,
            repository,
        ),
{
    let texts = texts_of(allowed);
    if texts.contains(repository) {
        let i = choose|i: int| 0 <= i < texts.len() && texts[i] == repository;
        assert(allowed[i]@ == repository);
    }
    if is_listed(allowed, repository) {
        let i = choose|i: int| 0 <= i < allowed.len() && (#[trigger] allowed[i])@ == repository;
        assert(texts[i] == repository);
    }
}

/// Where the configuration lists repositories, a thread is posted only if one of them is
/// the thread's own, character by character, `self` like any other; where none is, it is
/// refused.
pub proof fn law_posted_to_listed_repositories_alone(
    request: AddPrCommentResult,
    ctx: ExecutionContext,
    config: AddPrCommentConfig,
    decision: Result<Decision, ExecuteError>,
)
    requires
        call_ensures(AddPrCommentResult::plan, (&request, &ctx, &config), decision),
        config.allowed_repositories@.len() > 0,
    ensures
        posts(decision) ==> is_listed(config.allowed_repositories@, request.repository@),
        can_reach_server(ctx) && !is_listed(config.allowed_repositories@, request.repository@)
            ==> refuses_with(
            decision,
            "Repository '"@ + request.repository@ + "' is not in the allowed-repositories list"@,
        ),
{
    lemma_listed_repository(config.allowed_repositories@, request.repository@);
}

/// The decision is to post a thread.
pub open spec fn posts(decision: Result<Decision, ExecuteError>) -> bool {
    decision is Ok && decision->Ok_0 is Post
}

/// The decision is not to post a thread, and to say this.
pub open spec fn refuses_with(decision: Result<Decision, ExecuteError>, text: Seq<char>) -> bool {
    &&& decision matches Ok(Decision::Refuse(result))
    &&& !result.success
    &&& result.message@ == text
    &&& result.data is None
}

/// Looking an alias up finds the name of the first entry that has it, and nothing exactly
/// where none has.
pub proof fn law_aliases_find_their_first_entry(
    alias: &str,
    allowed: Vec<AllowedRepository>,
    name: Option<&String>,
)
    requires
        call_ensures(lookup_allowed_repository, (alias, &allowed), name),
    ensures
        name is None <==> forall|i: int|
            0 <= i < allowed@.len() ==> (#[trigger] allowed@[i]).alias@ != alias@,
        name matches Some(found) ==> exists|i: int|
            {
                &&& is_first_with_alias(allowed@, alias@, i)
                &&& (#[trigger] allowed@[i]).name@ == found@
            },
{
    lemma_first_with_alias(allowed@, alias@);
}

/// The entry with this index has the alias, and none before it has.
pub open spec fn is_first_with_alias(
    allowed: Seq<AllowedRepository>,
    alias: Seq<char>,
    index: int,
) -> bool {
    &&& 0 <= index < allowed.len()
    &&& allowed[index].alias@ == alias
    &&& forall|j: int| 0 <= j < index ==> (#[trigger] allowed[j]).alias@ != alias
}

proof fn lemma_first_with_alias(allowed: Seq<AllowedRepository>, alias: Seq<char>)
    ensures
        name_for_alias(allowed, alias) is None <==> forall|i: int|
            0 <= i < allowed.len() ==> (#[trigger] allowed[i]).alias@ != alias,
        name_for_alias(allowed, alias) matches Some(found) ==> exists|i: int|
            {
                &&& is_first_with_alias(allowed, alias, i)
                &&& (#[trigger] allowed[i]).name@ == found
            },
        forall|i: int| #[trigger]
            is_first_with_alias(allowed, alias, i) ==> name_for_alias(allowed, alias) == Some(
                allowed[i].name@,
            ),
    decreases allowed.len(),
{
    if allowed.len() > 0 {
        let rest = allowed.drop_first();
        lemma_first_with_alias(rest, alias);
        if allowed[0].alias@ == alias {
            assert(is_first_with_alias(allowed, alias, 0));
            assert(allowed[0].name@ == name_for_alias(allowed, alias)->Some_0);
        } else {
            assert forall|i: int| 0 <= i < rest.len() implies #[trigger] rest[i] == allowed[i
                + 1] by {}
            if name_for_alias(rest, alias) is None {
                assert forall|i: int| 0 <= i < allowed.len() implies (
                #[trigger] allowed[i]).alias@ != alias by {
                    if i > 0 {
                        assert(rest[i - 1].alias@ != alias);
                    }
                }
            } else {
                let found = name_for_alias(rest, alias)->Some_0;
                let i = choose|i: int|
                    {
                        &&& is_first_with_alias(rest, alias, i)
                        &&& (#[trigger] rest[i]).name@ == found
                    };
                assert(rest[i] == allowed[i + 1]);
                assert forall|j: int| 0 <= j < i + 1 implies (#[trigger] allowed[j]).alias@
                    != alias by {
                    if j > 0 {
                        assert(rest[j - 1].alias@ != alias);
                    }
                }
                assert(is_first_with_alias(allowed, alias, i + 1));
                assert(allowed[i + 1].name@ == found);
            }
        }
        assert forall|i: int| #[trigger] is_first_with_alias(allowed, alias, i) implies
            name_for_alias(allowed, alias) == Some(allowed[i].name@) by {
            if i > 0 {
                assert(allowed[0].alias@ != alias);
                assert(rest[i - 1] == allowed[i]);
                assert forall|j: int| 0 <= j < i - 1 implies (#[trigger] rest[j]).alias@
                    != alias by {
                    assert(rest[j] == allowed[j + 1]);
                }
                assert(is_first_with_alias(rest, alias, i - 1));
            }
        }
    }
}

/// The thread's repository is this one: the pipeline's own for `self` or for no name at
/// all, and otherwise the one that the first entry of the checkout list with that alias
/// names.
pub open spec fn is_meant(
    request: AddPrCommentResult,
    ctx: ExecutionContext,
    name: Seq<char>,
) -> bool {
    if request.repository@ == "self"@ || request.repository@.len() == 0 {
        ctx.repository_name is Some && ctx.repository_name->Some_0@ == name
    } else {
        exists|i: int|
            {
                &&& is_first_with_alias(ctx.allowed_repositories@, request.repository@, i)
                &&& (#[trigger] ctx.allowed_repositories@[i]).name@ == name
            }
    }
}

proof fn lemma_meant(request: AddPrCommentResult, ctx: ExecutionContext)
    ensures
        request.repository_name(ctx) is Some <==> exists|name: Seq<char>| #[trigger]
            is_meant(request, ctx, name),
        request.repository_name(ctx) is Some ==> is_meant(
            request,
            ctx,
            request.repository_name(ctx)->Some_0,
        ),
{
    lemma_first_with_alias(ctx.allowed_repositories@, request.repository@);
    if request.repository_name(ctx) is Some {
        assert(is_meant(request, ctx, request.repository_name(ctx)->Some_0));
    }
    if exists|name: Seq<char>| #[trigger] is_meant(request, ctx, name) {
        let name = choose|name: Seq<char>| #[trigger] is_meant(request, ctx, name);
        assert(is_meant(request, ctx, name));
    }
}

/// The checks of the single fields, in plain terms.
proof fn lemma_checks_in_plain_terms(
    request: AddPrCommentResult,
    ctx: ExecutionContext,
    config: AddPrCommentConfig,
)
    ensures
        repository_allowed(texts_of(config.allowed_repositories@), request.repository@)
            <==> config.allowed_repositories@.len() == 0 || is_listed(
            config.allowed_repositories@,
            request.repository@,
        ),
        status_allowed(texts_of(config.allowed_statuses@), request.status@)
            <==> config.allowed_statuses@.len() == 0 || is_listed_in_any_case(
            config.allowed_statuses@,
            request.status@,
        ),
        status_number(request.status@) is Some <==> exists|n: int| #[trigger]
            spells_status(request.status@, n),
        request.file_path matches Some(path) ==> (file_path_error(path@) is None <==> leads_down(
            path@,
        )),
        request.repository_name(ctx) is Some <==> exists|name: Seq<char>| #[trigger]
            is_meant(request, ctx, name),
{
    lemma_listed_repository(config.allowed_repositories@, request.repository@);
    lemma_listed_status(config.allowed_statuses@, request.status@);
    lemma_status_number(request.status@, 0);
    lemma_meant(request, ctx);
    if let Some(path) = request.file_path {
        lemma_parent_component(path@);
    }
}

/// A thread is posted exactly where the server can be reached, the lists of allowed
/// repositories and statuses are empty or name its own, the status is one of the known
/// spellings, the path leads down, and the repository is one that is known.
pub proof fn law_what_posting_takes(
    request: AddPrCommentResult,
    ctx: ExecutionContext,
    config: AddPrCommentConfig,
    decision: Result<Decision, ExecuteError>,
)
    requires
        call_ensures(AddPrCommentResult::plan, (&request, &ctx, &config), decision),
    ensures
        posts(decision) <==> {
            &&& ctx.ado_org_url is Some && ctx.ado_project is Some && ctx.access_token is Some
            &&& config.allowed_repositories@.len() == 0 || is_listed(
                config.allowed_repositories@,
                request.repository@,
            )
            &&& config.allowed_statuses@.len() == 0 || is_listed_in_any_case(
                config.allowed_statuses@,
                request.status@,
            )
            &&& exists|n: int| #[trigger] spells_status(request.status@, n)
            &&& request.file_path is Some ==> leads_down(request.file_path->Some_0@)
            &&& exists|name: Seq<char>| #[trigger] is_meant(request, ctx, name)
        },
{
    lemma_checks_in_plain_terms(request, ctx, config);
}

/// Of several reasons not to post a thread the first counts, in the order: the
/// organization's URL, the project, the token, the list of repositories, the list of
/// statuses, the status, the path, the repository. A setting that is missing breaks off,
/// and anything else is refused in words.
pub proof fn law_the_first_obstacle_counts(
    request: AddPrCommentResult,
    ctx: ExecutionContext,
    config: AddPrCommentConfig,
    decision: Result<Decision, ExecuteError>,
)
    requires
        call_ensures(AddPrCommentResult::plan, (&request, &ctx, &config), decision),
    ensures
        ({
            let located = ctx.ado_org_url is Some;
            let placed = located && ctx.ado_project is Some;
            let carried = placed && ctx.access_token is Some;
            let listed = carried && (config.allowed_repositories@.len() == 0 || is_listed(
                config.allowed_repositories@,
                request.repository@,
            ));
            let permitted = listed && (config.allowed_statuses@.len() == 0 || is_listed_in_any_case(
                config.allowed_statuses@,
                request.status@,
            ));
            let known = permitted && exists|n: int| #[trigger] spells_status(request.status@, n);
            let down = known && (request.file_path is Some ==> leads_down(
                request.file_path->Some_0@,
            ));
            let own = request.repository@ == "self"@ || request.repository@.len() == 0;
            let meant = exists|name: Seq<char>| #[trigger] is_meant(request, ctx, name);
            &&& !located ==> decision == Err::<Decision, ExecuteError>(ExecuteError::OrgUrlNotSet)
            &&& located && !placed ==> decision == Err::<Decision, ExecuteError>(
                ExecuteError::ProjectNotSet,
            )
            &&& placed && !carried ==> decision == Err::<Decision, ExecuteError>(
                ExecuteError::TokenNotSet,
            )
            &&& carried && !listed ==> refuses_with(
                decision,
                "Repository '"@ + request.repository@
                    + "' is not in the allowed-repositories list"@,
            )
            &&& listed && !permitted ==> refuses_with(
                decision,
                "Status '"@ + request.status@ + "' is not in the allowed-statuses list"@,
            )
            &&& permitted && !known ==> refuses_with(
                decision,
                "Invalid status '"@ + request.status@ + "'. Valid statuses: "@
                    + "active, fixed, wont-fix, closed, by-design"@,
            )
            &&& down && !meant && own ==> decision == Err::<Decision, ExecuteError>(
                ExecuteError::RepositoryNameNotSet,
            )
            &&& down && !meant && !own ==> refuses_with(
                decision,
                "Repository alias '"@ + request.repository@
                    + "' not found in allowed repositories"@,
            )
            &&& down && meant ==> posts(decision)
        }),
{
    lemma_checks_in_plain_terms(request, ctx, config);
    lemma_valid_statuses_text();
}

/// A path that is not acceptable is refused in the words that it is refused in on its own.
pub proof fn law_bad_paths_are_refused(
    request: AddPrCommentResult,
    ctx: ExecutionContext,
    config: AddPrCommentConfig,
    decision: Result<Decision, ExecuteError>,
    path: &str,
    error: FilePathError,
    text: String,
)
    requires
        call_ensures(AddPrCommentResult::plan, (&request, &ctx, &config), decision),
        can_reach_server(ctx),
        config.allowed_repositories@.len() == 0 || is_listed(
            config.allowed_repositories@,
            request.repository@,
        ),
        config.allowed_statuses@.len() == 0 || is_listed_in_any_case(
            config.allowed_statuses@,
            request.status@,
        ),
        exists|n: int| #[trigger] spells_status(request.status@, n),
        request.file_path is Some,
        request.file_path->Some_0@ == path@,
        call_ensures(validate_file_path, (path,), Err::<(), FilePathError>(error)),
        call_ensures(FilePathError::message, (&error,), text),
    ensures
        refuses_with(decision, "Invalid file_path: "@ + text@),
{
    lemma_checks_in_plain_terms(request, ctx, config);
}

/// The posted comment is the configured prefix, then the whole content, then the agent's
/// statistics. The prefix is there wherever one is configured, whatever is said of the
/// statistics; these are there exactly where they are wanted and there are any.
pub proof fn law_posted_comment_is_prefix_content_statistics(
    request: AddPrCommentResult,
    ctx: ExecutionContext,
    config: AddPrCommentConfig,
    plan: ThreadPlan,
)
    requires
        call_ensures(
            AddPrCommentResult::plan,
            (&request, &ctx, &config),
            Ok::<Decision, ExecuteError>(Decision::Post(plan)),
        ),
    ensures
        ({
            let start = match config.comment_prefix {
                Some(prefix) => prefix@ + request.content@,
                None => request.content@,
            };
            &&& start.is_prefix_of(plan.comment@)
            &&& config.include_stats && ctx.agent_stats is Some ==> plan.comment@ == start
                + ctx.agent_stats->Some_0@
            &&& !config.include_stats || ctx.agent_stats is None ==> plan.comment@ == start
        }),
{
}

/// Statistics are put behind a text exactly where they are wanted and there are any.
pub proof fn law_statistics_follow_where_wanted(
    body: &str,
    ctx: ExecutionContext,
    wanted: bool,
    text: String,
)
    requires
        call_ensures(append_stats_to_body, (body, &ctx, wanted), text),
    ensures
        wanted && ctx.agent_stats is Some ==> text@ == body@ + ctx.agent_stats->Some_0@,
        !wanted || ctx.agent_stats is None ==> text@ == body@,
{
}

/// A thread is posted to the repository that is meant, in the context's project, with the
/// context's token, under the number that its status spells, and to the address of its own
/// pull request there.
pub proof fn law_posted_where_it_is_meant(
    request: AddPrCommentResult,
    ctx: ExecutionContext,
    config: AddPrCommentConfig,
    plan: ThreadPlan,
    org_url: &str,
    project: &str,
    repository: &str,
    url: String,
)
    requires
        call_ensures(
            AddPrCommentResult::plan,
            (&request, &ctx, &config),
            Ok::<Decision, ExecuteError>(Decision::Post(plan)),
        ),
        ctx.ado_org_url is Some && ctx.ado_org_url->Some_0@ == org_url@,
        ctx.ado_project is Some && ctx.ado_project->Some_0@ == project@,
        plan.repository@ == repository@,
        call_ensures(threads_url, (org_url, project, repository, request.pull_request_id), url),
    ensures
        plan.url@ == url@,
        plan.project@ == project@,
        ctx.access_token is Some && plan.token@ == ctx.access_token->Some_0@,
        is_meant(request, ctx, plan.repository@),
        spells_status(request.status@, plan.status as int),
{
    lemma_meant(request, ctx);
    lemma_status_number(request.status@, plan.status as int);
}

/// The JSON value is a thread with this one comment and this status, and with a context
/// exactly where it is inline.
pub open spec fn holds_thread(
    body: JsonView,
    comment: Seq<char>,
    status: int,
    inline: bool,
) -> bool {
    &&& body matches JsonView::Object(members)
    &&& members.dom() == if inline {
        set!["comments"@, "status"@, "threadContext"@]
    } else {
        set!["comments"@, "status"@]
    }
    &&& members["status"@] == JsonView::Integer(status)
    &&& members["comments"@] matches JsonView::Array(comments)
    &&& comments.len() == 1
    &&& comments[0] matches JsonView::Object(posted)
    &&& posted.dom() == set!["parentCommentId"@, "content"@, "commentType"@]
    &&& posted["parentCommentId"@] == JsonView::Integer(0)
    &&& posted["content"@] == JsonView::Text(comment)
    &&& posted["commentType"@] == JsonView::Integer(1)
}

/// What is sent for a plan holds its comment and its status, and the range of its anchor
/// up to the offset that was measured on the last line, or up to its first character where
/// none was.
pub proof fn law_sent_body_holds_the_plan(
    plan: ThreadPlan,
    contents: Option<&str>,
    body: serde_json::Value,
    measured: Option<usize>,
)
    requires
        call_ensures(ThreadPlan::thread_body, (&plan, contents), body),
        plan.anchor matches Some(place) ==> call_ensures(
            line_end_offset,
            (contents, place.end_line),
            measured,
        ),
    ensures
        holds_thread(json_view(body), plan.comment@, plan.status as int, plan.anchor is Some),
        plan.anchor matches Some(place) ==> places_range(
            json_view(body)->Object_0["threadContext"@],
            place.file_path@,
            place.start_line as int,
            place.end_line as int,
            match measured {
                Some(offset) => offset as int,
                None => 1,
            },
        ),
{
    let context = plan.context_view(contents);
    law_thread_body_reads_back(plan.comment@, plan.status as int, context);
    let thread = thread_body_view(plan.comment@, plan.status as int, context)->Object_0;
    if plan.anchor is Some {
        assert(thread.dom() =~= set!["comments"@, "status"@, "threadContext"@]);
        let place = plan.anchor->Some_0;
        lemma_context_places_range(
            place.file_path@,
            place.start_line as int,
            place.end_line as int,
            anchor_end_offset(contents, place.end_line as int),
        );
    } else {
        assert(thread.dom() =~= set!["comments"@, "status"@]);
    }
    assert(comment_view(plan.comment@)->Object_0.dom() =~= set![
        "parentCommentId"@,
        "content"@,
        "commentType"@,
    ]);
}

/// From the thread that was asked for to what is sent: an inline comment carries its path,
/// its own first and last line, and the offset measured on the last. Without a first line
/// the last stands for it, and without a last line the first line of the file. A comment
/// that is not inline carries no place.
pub proof fn law_sent_range_is_the_one_asked_for(
    request: AddPrCommentResult,
    ctx: ExecutionContext,
    config: AddPrCommentConfig,
    plan: ThreadPlan,
    contents: Option<&str>,
    body: serde_json::Value,
    last: i32,
    measured: Option<usize>,
)
    requires
        call_ensures(
            AddPrCommentResult::plan,
            (&request, &ctx, &config),
            Ok::<Decision, ExecuteError>(Decision::Post(plan)),
        ),
        call_ensures(ThreadPlan::thread_body, (&plan, contents), body),
        call_ensures(line_end_offset, (contents, last), measured),
        request.line is Some ==> last == request.line->Some_0,
        request.line is None ==> last == 1,
    ensures
        holds_thread(
            json_view(body),
            plan.comment@,
            plan.status as int,
            request.file_path is Some,
        ),
        request.file_path is Some && request.start_line is Some ==> places_range(
            json_view(body)->Object_0["threadContext"@],
            request.file_path->Some_0@,
            request.start_line->Some_0 as int,
            last as int,
            match measured {
                Some(offset) => offset as int,
                None => 1,
            },
        ),
        request.file_path is Some && request.start_line is None ==> places_range(
            json_view(body)->Object_0["threadContext"@],
            request.file_path->Some_0@,
            last as int,
            last as int,
            match measured {
                Some(offset) => offset as int,
                None => 1,
            },
        ),
{
    law_sent_body_holds_the_plan(plan, contents, body, measured);
}

/// The number under the name `key` in the position `position` of a sent thread's range.
pub open spec fn sent_number(body: JsonView, position: Seq<char>, key: Seq<char>) -> int {
    body->Object_0["threadContext"@]->Object_0[position]->Object_0[key]->Integer_0
}

/// A suggestion on the lines from `first` to `last` that is applied on the range that was
/// sent for them, as whoever receives the body reads it, leaves the lines before `first`
/// as they were, and the ending of `last` and everything behind it.
pub proof fn law_sent_suggestion_touches_its_lines_alone(
    request: AddPrCommentResult,
    ctx: ExecutionContext,
    config: AddPrCommentConfig,
    plan: ThreadPlan,
    text: &str,
    body: serde_json::Value,
    measured: Option<usize>,
    first: i32,
    last: i32,
    before: Seq<char>,
    upper: Seq<char>,
    content: Seq<char>,
    ending: Seq<char>,
    after: Seq<char>,
    suggestion: Seq<char>,
)
    requires
        call_ensures(
            AddPrCommentResult::plan,
            (&request, &ctx, &config),
            Ok::<Decision, ExecuteError>(Decision::Post(plan)),
        ),
        call_ensures(ThreadPlan::thread_body, (&plan, Some(text)), body),
        call_ensures(line_end_offset, (Some(text), last), measured),
        request.file_path is Some,
        request.start_line == Some(first) || (request.start_line is None && first == last),
        request.line == Some(last),
        2 * text@.len() < usize::MAX,
        text@ == upper + (content + ending + after),
        ends_with_line(before),
        ends_with_line(upper),
        before.is_prefix_of(upper),
        closes_line(content, ending, after),
        first == feeds_in(before) + 1,
        last == feeds_in(upper) + 1,
    ensures
        sent_number(json_view(body), "rightFileStart"@, "line"@) == first,
        sent_number(json_view(body), "rightFileEnd"@, "line"@) == last,
        apply_suggestion(
            text@,
            sent_number(json_view(body), "rightFileStart"@, "line"@),
            sent_number(json_view(body), "rightFileEnd"@, "line"@),
            sent_number(json_view(body), "rightFileEnd"@, "offset"@),
            suggestion,
        ) == before + suggestion + (ending + after),
{
    law_sent_range_is_the_one_asked_for(
        request,
        ctx,
        config,
        plan,
        Some(text),
        body,
        last,
        measured,
    );
    law_measured_offset_is_past_the_line(upper, content, ending, after, text, last, measured);
    law_applied_suggestion_touches_its_lines_alone(
        before,
        upper,
        content,
        ending,
        after,
        suggestion,
    );
}

/// The server accepted exactly where the first of the three digits of its status code is
/// a two.
pub proof fn law_success_codes_start_with_two(code: u16, accepted: bool)
    requires
        call_ensures(is_success_status, (code,), accepted),
    ensures
        accepted <==> code / 100 == 2,
{
}

/// The number of a thread is read from the member `id` of the answer where that is an
/// integer of 64 bits; any other answer gives zero.
pub proof fn law_thread_number_is_read_or_zero(answer: serde_json::Value, id: i64)
    requires
        call_ensures(thread_id_of, (&answer,), id),
    ensures
        json_view(answer) is Object && json_view(answer)->Object_0.dom().contains("id"@)
            && json_view(answer)->Object_0["id"@] is Integer && i64::MIN <= json_view(
            answer,
        )->Object_0["id"@]->Integer_0 <= i64::MAX ==> id == json_view(
            answer,
        )->Object_0["id"@]->Integer_0,
        json_view(answer) !is Object ==> id == 0,
        json_view(answer) is Object && !json_view(answer)->Object_0.dom().contains("id"@) ==> id
            == 0,
        json_view(answer) is Object && json_view(answer)->Object_0["id"@] !is Integer ==> id == 0,
        json_view(answer) is Object && json_view(answer)->Object_0["id"@] is Integer && !(i64::MIN
            <= json_view(answer)->Object_0["id"@]->Integer_0 <= i64::MAX) ==> id == 0,
{
}

/// The outcome of a reply. A request that was not sent and an answer that is no JSON break
/// off. A thread that was created is reported with its number, and with the pull request,
/// the repository, the project and the status that it was asked for with. A rejection is a
/// failure that gives the server's status and its answer.
pub proof fn law_replies_are_reported(
    request: AddPrCommentResult,
    plan: ThreadPlan,
    reply: Reply,
    id: i64,
    result: Result<ExecutionResult, ExecuteError>,
)
    requires
        call_ensures(AddPrCommentResult::conclude, (&request, &plan, reply), result),
        reply matches Reply::Created(answer) ==> call_ensures(thread_id_of, (&answer,), id),
    ensures
        reply is NotSent ==> result == Err::<ExecutionResult, ExecuteError>(
            ExecuteError::RequestNotSent,
        ),
        reply is NotJson ==> result == Err::<ExecutionResult, ExecuteError>(
            ExecuteError::ResponseNotJson,
        ),
        reply is Created ==> {
            &&& result matches Ok(outcome)
            &&& outcome.success
            &&& outcome.message@ == "Added comment thread #"@ + decimal(id as int) + " to PR #"@
                + decimal(request.pull_request_id as int)
            &&& outcome.data matches Some(data)
            &&& json_view(data) matches JsonView::Object(report)
            &&& report.dom() == set![
                "thread_id"@,
                "pull_request_id"@,
                "repository"@,
                "project"@,
                "status"@,
            ]
            &&& report["thread_id"@] == JsonView::Integer(id as int)
            &&& report["pull_request_id"@] == JsonView::Integer(request.pull_request_id as int)
            &&& report["repository"@] == JsonView::Text(plan.repository@)
            &&& report["project"@] == JsonView::Text(plan.project@)
            &&& report["status"@] == JsonView::Text(request.status@)
        },
        reply matches Reply::Rejected { status, body } ==> {
            &&& result matches Ok(outcome)
            &&& !outcome.success
            &&& outcome.data is None
            &&& body is Some ==> outcome.message@ == "Failed to add comment to PR #"@ + decimal(
                request.pull_request_id as int,
            ) + " (HTTP "@ + status@ + "): "@ + body->Some_0@
            &&& body is None ==> outcome.message@ == "Failed to add comment to PR #"@ + decimal(
                request.pull_request_id as int,
            ) + " (HTTP "@ + status@ + "): "@ + "Unknown error"@
        },
{
    law_report_reads_back(request, plan, id as int);
    assert(request.report_view(plan, id as int)->Object_0.dom() =~= set![
        "thread_id"@,
        "pull_request_id"@,
        "repository"@,
        "project"@,
        "status"@,
    ]);
}

/// What is said where running the tool breaks off.
pub proof fn law_errors_in_words(error: ExecuteError, text: String)
    requires
        call_ensures(ExecuteError::message, (&error,), text),
    ensures
        match error {
            ExecuteError::OrgUrlNotSet => text@ == "AZURE_DEVOPS_ORG_URL not set"@,
            ExecuteError::ProjectNotSet => text@ == "SYSTEM_TEAMPROJECT not set"@,
            ExecuteError::TokenNotSet => text@
                == "No access token available (SYSTEM_ACCESSTOKEN or AZURE_DEVOPS_EXT_PAT)"@,
            ExecuteError::RepositoryNameNotSet => text@
                == "BUILD_REPOSITORY_NAME not set and repository is 'self'"@,
            ExecuteError::RequestNotSent => text@ == "Failed to send request to Azure DevOps"@,
            ExecuteError::ResponseNotJson => text@ == "Failed to parse response JSON"@,
        },
{
}

/// A plan is anchored exactly where a file was named, in that file, at the lines that were
/// asked for: the first line of the file where no line was, and one line where no first
/// line was.
pub proof fn law_anchor_is_the_one_asked_for(
    request: AddPrCommentResult,
    ctx: ExecutionContext,
    config: AddPrCommentConfig,
    plan: ThreadPlan,
)
    requires
        call_ensures(
            AddPrCommentResult::plan,
            (&request, &ctx, &config),
            Ok::<Decision, ExecuteError>(Decision::Post(plan)),
        ),
    ensures
        plan.anchor is Some <==> request.file_path is Some,
        plan.anchor matches Some(place) ==> {
            &&& place.file_path@ == request.file_path->Some_0@
            &&& request.line is Some ==> place.end_line == request.line->Some_0
            &&& request.line is None ==> place.end_line == 1
            &&& request.start_line is Some ==> place.start_line == request.start_line->Some_0
            &&& request.start_line is None ==> place.start_line == place.end_line
        },
{
}

/// Under the default configuration nothing is refused for a list, nothing stands before
/// the content, and the statistics follow wherever there are any.
pub proof fn law_default_configuration_restricts_nothing(
    request: AddPrCommentResult,
    ctx: ExecutionContext,
    config: AddPrCommentConfig,
    decision: Result<Decision, ExecuteError>,
)
    requires
        call_ensures(<AddPrCommentConfig as Default>::default, (), config),
        call_ensures(AddPrCommentResult::plan, (&request, &ctx, &config), decision),
    ensures
        posts(decision) <==> {
            &&& can_reach_server(ctx)
            &&& exists|n: int| #[trigger] spells_status(request.status@, n)
            &&& request.file_path is Some ==> leads_down(request.file_path->Some_0@)
            &&& exists|name: Seq<char>| #[trigger] is_meant(request, ctx, name)
        },
        decision matches Ok(Decision::Post(plan)) ==> {
            &&& ctx.agent_stats is Some ==> plan.comment@ == request.content@
                + ctx.agent_stats->Some_0@
            &&& ctx.agent_stats is None ==> plan.comment@ == request.content@
        },
{
    lemma_checks_in_plain_terms(request, ctx, config);
}

/// A result says whether the tool did what was asked, and holds the message and the report
/// that it was given.
pub proof fn law_results_hold_what_they_are_given(
    message: String,
    data: serde_json::Value,
    failed: ExecutionResult,
    done: ExecutionResult,
)
    requires
        call_ensures(ExecutionResult::failure, (message,), failed),
        call_ensures(ExecutionResult::success_with_data, (message, data), done),
    ensures
        !failed.success && failed.message@ == message@ && failed.data is None,
        done.success && done.message@ == message@ && done.data == Some(data),
{
}

} // verus!
