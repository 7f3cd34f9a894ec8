//! What an agent asks for, and when it is accepted.

use crate::path::{
    file_path_error, leads_down, lemma_parent_component, validate_file_path, FilePathError,
};
use crate::pipeline::{
    contains_pipeline_command, has_command, law_clean_text_is_posted_literally,
    law_text_without_commands_is_kept, lemma_has_command, opening_stands_at, sanitize,
    sanitize_config, sanitized_config, sanitized_text,
};
use crate::status::{
    lemma_status_number, lemma_valid_statuses_text, spells_status, status_number, status_to_int,
    valid_status_texts, valid_statuses_text,
};
use crate::text::{
    decimal, is_control, joined, law_decimal_reads_back, lemma_without_controls_has_none,
    lemma_without_controls_keeps_clean_text, push_decimal, strip_controls, without_controls,
    writes_integer,
};
use vstd::prelude::*;
use vstd::std_specs::convert::TryFromSpecImpl;

verus! {

/// Parameters for adding a comment thread on a pull request.
#[derive(Debug)]
pub struct AddPrCommentParams {
    /// The pull request to comment on.
    pub pull_request_id: i32,
    /// Comment text in markdown format, of more than ten characters.
    pub content: String,
    /// Repository alias: "self" for the pipeline's repository, or an alias from the
    /// checkout list.
    pub repository: String,
    /// File path for an inline comment. When set, the comment is anchored to this file.
    pub file_path: Option<String>,
    /// First line of an inline comment on several lines. Needs `line`, and is less than
    /// it.
    pub start_line: Option<i32>,
    /// Line of an inline comment. Needs `file_path`.
    pub line: Option<i32>,
    /// Thread status, in its canonical spelling or in camel case.
    pub status: String,
}

/// The repository of parameters that name none.
pub fn default_repository() -> (repository: String)
    ensures
        repository@ == "self"@,
{
    "self".to_owned()
}

/// The status of parameters that name none.
pub fn default_status() -> (status: String)
    ensures
        status@ == "active"@,
{
    "active".to_owned()
}

/// Why parameters are not accepted.
#[derive(Clone, Copy, Debug, PartialEq, Eq, Structural)]
pub enum ValidationError {
    PullRequestIdNotPositive,
    ContentTooShort,
    UnknownStatus,
    LineWithoutFilePath,
    StartLineWithoutLine,
    StartLineNotBeforeLine { start: i32, end: i32 },
    FilePath(FilePathError),
    RepositoryHoldsCommand,
}

impl ValidationError {
    /// What the message of the error says.
    pub open spec fn message_text(self) -> Seq<char> {
        match self {
            ValidationError::PullRequestIdNotPositive => "pull_request_id must be positive"@,
            ValidationError::ContentTooShort => "content must be at least 10 characters"@,
            ValidationError::UnknownStatus => "status must be one of: "@ + joined(
                valid_status_texts(),
                ", "@,
            ),
            ValidationError::LineWithoutFilePath => "line requires file_path to be set"@,
            ValidationError::StartLineWithoutLine => "start_line requires line to be set"@,
            ValidationError::StartLineNotBeforeLine { start, end } => "start_line ("@ + decimal(
                start as int,
            ) + ") must be less than line ("@ + decimal(end as int) + ")"@,
            ValidationError::FilePath(error) => error.message_text(),
            ValidationError::RepositoryHoldsCommand =>
                "repository must not contain a pipeline command"@,
        }
    }

    /// The error in words.
    pub fn message(&self) -> (text: String)
        ensures
            text@ == self.message_text(),
    {
        match self {
            ValidationError::PullRequestIdNotPositive =>
                "pull_request_id must be positive".to_owned(),
            ValidationError::ContentTooShort =>
                "content must be at least 10 characters".to_owned(),
            ValidationError::UnknownStatus =>
                "status must be one of: ".to_owned().concat(valid_statuses_text().as_str()),
            ValidationError::LineWithoutFilePath =>
                "line requires file_path to be set".to_owned(),
            ValidationError::StartLineWithoutLine =>
                "start_line requires line to be set".to_owned(),
            ValidationError::StartLineNotBeforeLine { start, end } => {
                let mut text = "start_line (".to_owned();
                push_decimal(&mut text, *start as i64);
                text.append(") must be less than line (");
                push_decimal(&mut text, *end as i64);
                text.append(")");
                text
            },
            ValidationError::FilePath(error) => error.message(),
            ValidationError::RepositoryHoldsCommand =>
                "repository must not contain a pipeline command".to_owned(),
        }
    }
}

/// The line numbers of an inline comment fit together: a line needs a file, and a
/// first line needs a last line that it comes before.
pub open spec fn lines_fit(
    file_path: Option<String>,
    start_line: Option<i32>,
    line: Option<i32>,
) -> bool {
    &&& line is Some ==> file_path is Some
    &&& start_line is Some ==> line is Some && start_line->Some_0 < line->Some_0
}

impl AddPrCommentParams {
    /// Whether the parameters are accepted.
    pub open spec fn is_valid(&self) -> bool {
        &&& self.pull_request_id > 0
        &&& self.content@.len() > 10
        &&& status_number(self.status@) is Some
        &&& lines_fit(self.file_path, self.start_line, self.line)
        &&& self.file_path is Some ==> file_path_error(self.file_path->Some_0@) is None
        &&& !has_command(self.repository@)
    }

    /// The first thing that is wrong with the parameters, in the order in which they are
    /// looked at.
    pub open spec fn violation(&self) -> Option<ValidationError> {
        if self.pull_request_id <= 0 {
            Some(ValidationError::PullRequestIdNotPositive)
        } else if self.content@.len() <= 10 {
            Some(ValidationError::ContentTooShort)
        } else if status_number(self.status@) is None {
            Some(ValidationError::UnknownStatus)
        } else if self.line is Some && self.file_path is None {
            Some(ValidationError::LineWithoutFilePath)
        } else if self.start_line is Some && self.line is None {
            Some(ValidationError::StartLineWithoutLine)
        } else if self.start_line is Some && self.start_line->Some_0 >= self.line->Some_0 {
            Some(
                ValidationError::StartLineNotBeforeLine {
                    start: self.start_line->Some_0,
                    end: self.line->Some_0,
                },
            )
        } else if self.file_path is Some && file_path_error(
            self.file_path->Some_0@,
        ) is Some {
            Some(
                ValidationError::FilePath(file_path_error(self.file_path->Some_0@)->Some_0),
            )
        } else if has_command(self.repository@) {
            Some(ValidationError::RepositoryHoldsCommand)
        } else {
            None
        }
    }

    /// Checks the parameters.
    pub fn validate(&self) -> (result: Result<(), ValidationError>)
        ensures
            result is Ok <==> self.is_valid(),
            match self.violation() {
                Some(error) => result == Err::<(), ValidationError>(error),
                None => result is Ok,
            },
    {
        if self.pull_request_id <= 0 {
            return Err(ValidationError::PullRequestIdNotPositive);
        }
        if self.content.as_str().unicode_len() <= 10 {
            return Err(ValidationError::ContentTooShort);
        }
        if status_to_int(self.status.as_str()).is_none() {
            return Err(ValidationError::UnknownStatus);
        }
        if self.line.is_some() && self.file_path.is_none() {
            return Err(ValidationError::LineWithoutFilePath);
        }
        if let Some(start) = self.start_line {
            match self.line {
                None => return Err(ValidationError::StartLineWithoutLine),
                Some(end) => {
                    if start >= end {
                        return Err(ValidationError::StartLineNotBeforeLine { start, end });
                    }
                },
            }
        }
        if let Some(path) = &self.file_path {
            if let Err(error) = validate_file_path(path.as_str()) {
                return Err(ValidationError::FilePath(error));
            }
        }
        if contains_pipeline_command(self.repository.as_str()) {
            return Err(ValidationError::RepositoryHoldsCommand);
        }
        Ok(())
    }
}

/// A comment thread that was asked for and accepted.
#[derive(Debug)]
pub struct AddPrCommentResult {
    pub name: String,
    pub pull_request_id: i32,
    pub content: String,
    pub repository: String,
    pub file_path: Option<String>,
    pub start_line: Option<i32>,
    pub line: Option<i32>,
    pub status: String,
}

impl AddPrCommentResult {
    /// The name of the tool.
    pub const NAME: &'static str = "add-pr-comment";

    /// The result holds what the parameters hold, under the name of the tool.
    pub open spec fn holds(&self, params: AddPrCommentParams) -> bool {
        &&& self.name@ == Self::NAME@
        &&& self.pull_request_id == params.pull_request_id
        &&& self.content == params.content
        &&& self.repository == params.repository
        &&& self.file_path == params.file_path
        &&& self.start_line == params.start_line
        &&& self.line == params.line
        &&& self.status == params.status
    }
}

// What `try_from` returns is stated on the function itself.
impl TryFromSpecImpl<AddPrCommentParams> for AddPrCommentResult {
    open spec fn obeys_try_from_spec() -> bool {
        false
    }

    open spec fn try_from_spec(params: AddPrCommentParams) -> Result<Self, ValidationError> {
        arbitrary()
    }
}

impl TryFrom<AddPrCommentParams> for AddPrCommentResult {
    type Error = ValidationError;

    fn try_from(params: AddPrCommentParams) -> (result: Result<Self, ValidationError>)
        ensures
            match result {
                Ok(accepted) => params.is_valid() && accepted.holds(params),
                Err(error) => params.violation() == Some(error),
            },
    {
        match params.validate() {
            Ok(()) => Ok(
                AddPrCommentResult {
                    name: Self::NAME.to_owned(),
                    pull_request_id: params.pull_request_id,
                    content: params.content,
                    repository: params.repository,
                    file_path: params.file_path,
                    start_line: params.start_line,
                    line: params.line,
                    status: params.status,
                },
            ),
            Err(error) => Err(error),
        }
    }
}

impl AddPrCommentResult {
    /// Cleans what an agent wrote: the comment as markdown, the repository as a
    /// structural value, and the other texts of their control characters.
    pub fn sanitize_content_fields(&mut self)
        ensures
            final(self).content@ == sanitized_text(old(self).content@),
            final(self).repository@ == sanitized_config(old(self).repository@),
            final(self).status@ == without_controls(old(self).status@),
            match (old(self).file_path, final(self).file_path) {
                (Some(before), Some(after)) => after@ == without_controls(before@),
                (None, None) => true,
                _ => false,
            },
            final(self).name == old(self).name,
            final(self).pull_request_id == old(self).pull_request_id,
            final(self).start_line == old(self).start_line,
            final(self).line == old(self).line,
    {
        self.content = sanitize(self.content.as_str());
        self.repository = sanitize_config(self.repository.as_str());
        self.status = strip_controls(self.status.as_str());
        self.file_path = match &self.file_path {
            Some(path) => Some(strip_controls(path.as_str())),
            None => None,
        };
    }

    /// What would be done, for a run that does nothing.
    pub fn dry_run_summary(&self) -> (summary: String)
        ensures
            summary@ == "add comment to PR #"@ + decimal(self.pull_request_id as int),
    {
        let mut summary = "add comment to PR #".to_owned();
        push_decimal(&mut summary, self.pull_request_id as i64);
        summary
    }
}

/// Content is too short exactly where it has ten characters or fewer, however many bytes
/// they take; nothing but the number of the pull request is looked at before.
pub proof fn law_content_has_more_than_ten_characters(params: AddPrCommentParams)
    ensures
        params.violation() == Some(ValidationError::ContentTooShort) <==> params.pull_request_id > 0
            && params.content@.len() <= 10,
        params.is_valid() ==> params.content@.len() > 10,
{
}

/// The first violation is missing exactly where the parameters are accepted.
pub proof fn law_accepted_means_no_violation(params: AddPrCommentParams)
    ensures
        params.violation() is None <==> params.is_valid(),
{
}

/// Text without control characters and without pipeline commands is left as it is by
/// every cleaning.
pub proof fn law_cleaning_keeps_clean_fields(text: Seq<char>)
    requires
        forall|i: int| 0 <= i < text.len() ==> !is_control(#[trigger] text[i]),
        !has_command(text),
    ensures
        without_controls(text) == text,
        sanitized_config(text) == text,
        sanitized_text(text) == text,
{
    lemma_without_controls_keeps_clean_text(text);
    law_text_without_commands_is_kept(text);
    law_clean_text_is_posted_literally(text);
}

/// Cleaning leaves no control character in a status or a path, and cleaning them again
/// changes nothing.
pub proof fn law_cleaned_fields_hold_no_controls(text: Seq<char>)
    ensures
        forall|i: int|
            0 <= i < without_controls(text).len() ==> !is_control(
                #[trigger] without_controls(text)[i],
            ),
        without_controls(without_controls(text)) == without_controls(text),
{
    lemma_without_controls_has_none(text);
    lemma_without_controls_keeps_clean_text(without_controls(text));
}

/// A known status survives the cleaning.
pub proof fn law_known_status_survives_cleaning(status: Seq<char>)
    requires
        status_number(status) is Some,
    ensures
        without_controls(status) == status,
{
    reveal_strlit("active");
    reveal_strlit("Active");
    reveal_strlit("fixed");
    reveal_strlit("Fixed");
    reveal_strlit("wont-fix");
    reveal_strlit("WontFix");
    reveal_strlit("closed");
    reveal_strlit("Closed");
    reveal_strlit("by-design");
    reveal_strlit("ByDesign");
    assert forall|i: int| 0 <= i < status.len() implies !is_control(#[trigger] status[i]) by {}
    lemma_without_controls_keeps_clean_text(status);
}

/// Parameters are accepted exactly where the pull request has a positive number, the
/// content more than ten characters and the status one of the known spellings, a line
/// comes with a file and a first line with a last one that it is less than, the path leads
/// down, and the repository opens no pipeline command.
pub proof fn law_what_acceptance_takes(
    params: AddPrCommentParams,
    result: Result<(), ValidationError>,
)
    requires
        call_ensures(AddPrCommentParams::validate, (&params,), result),
    ensures
        result is Ok <==> {
            &&& params.pull_request_id > 0
            &&& params.content@.len() > 10
            &&& exists|n: int| #[trigger] spells_status(params.status@, n)
            &&& params.line is Some ==> params.file_path is Some
            &&& params.start_line is Some ==> params.line is Some && params.start_line->Some_0
                < params.line->Some_0
            &&& params.file_path matches Some(path) ==> leads_down(path@)
            &&& forall|at: int| !#[trigger] opening_stands_at(params.repository@, at)
        },
{
    lemma_fields_in_plain_terms(params);
}

/// What the checks of the single fields come to.
proof fn lemma_fields_in_plain_terms(params: AddPrCommentParams)
    ensures
        status_number(params.status@) is Some <==> exists|n: int| #[trigger]
            spells_status(params.status@, n),
        params.file_path matches Some(path) ==> (file_path_error(path@) is None <==> leads_down(
            path@,
        )),
        has_command(params.repository@) <==> exists|at: int| #[trigger]
            opening_stands_at(params.repository@, at),
{
    lemma_status_number(params.status@, 0);
    lemma_has_command(params.repository@);
    if let Some(path) = params.file_path {
        lemma_parent_component(path@);
    }
}

/// Of parameters that are acceptable but for their first line, those with a first line are
/// accepted exactly where it is less than the last: the line just before it is, and the
/// last line itself is not.
pub proof fn law_first_line_comes_before_the_last(
    single: AddPrCommentParams,
    several: AddPrCommentParams,
    first: i32,
    last: i32,
    accepted: Result<(), ValidationError>,
    result: Result<(), ValidationError>,
)
    requires
        call_ensures(AddPrCommentParams::validate, (&single,), accepted),
        call_ensures(AddPrCommentParams::validate, (&several,), result),
        accepted is Ok,
        single.start_line is None,
        single.line == Some(last),
        several == (AddPrCommentParams { start_line: Some(first), ..single }),
    ensures
        result is Ok <==> first < last,
        first >= last ==> result == Err::<(), ValidationError>(
            ValidationError::StartLineNotBeforeLine { start: first, end: last },
        ),
{
}

/// The number of the pull request decides where all else is acceptable: positive ones are
/// accepted and the others are what is reported.
pub proof fn law_pull_request_number_is_positive(
    params: AddPrCommentParams,
    other: AddPrCommentParams,
    number: i32,
    accepted: Result<(), ValidationError>,
    result: Result<(), ValidationError>,
)
    requires
        call_ensures(AddPrCommentParams::validate, (&params,), accepted),
        call_ensures(AddPrCommentParams::validate, (&other,), result),
        accepted is Ok,
        other == (AddPrCommentParams { pull_request_id: number, ..params }),
    ensures
        number > 0 ==> result is Ok,
        number <= 0 ==> result == Err::<(), ValidationError>(
            ValidationError::PullRequestIdNotPositive,
        ),
{
}

/// The length of the content decides where all else is acceptable, whatever it says.
pub proof fn law_content_is_long_enough(
    params: AddPrCommentParams,
    other: AddPrCommentParams,
    content: String,
    accepted: Result<(), ValidationError>,
    result: Result<(), ValidationError>,
)
    requires
        call_ensures(AddPrCommentParams::validate, (&params,), accepted),
        call_ensures(AddPrCommentParams::validate, (&other,), result),
        accepted is Ok,
        other == (AddPrCommentParams { content, ..params }),
    ensures
        content@.len() > 10 ==> result is Ok,
        content@.len() <= 10 ==> result == Err::<(), ValidationError>(
            ValidationError::ContentTooShort,
        ),
{
}

/// The spelling of the status decides where all else is acceptable.
pub proof fn law_status_is_known(
    params: AddPrCommentParams,
    other: AddPrCommentParams,
    status: String,
    accepted: Result<(), ValidationError>,
    result: Result<(), ValidationError>,
)
    requires
        call_ensures(AddPrCommentParams::validate, (&params,), accepted),
        call_ensures(AddPrCommentParams::validate, (&other,), result),
        accepted is Ok,
        other == (AddPrCommentParams { status, ..params }),
    ensures
        (exists|n: int| #[trigger] spells_status(status@, n)) ==> result is Ok,
        (forall|n: int| !#[trigger] spells_status(status@, n)) ==> result == Err::<
            (),
            ValidationError,
        >(ValidationError::UnknownStatus),
{
    lemma_fields_in_plain_terms(other);
}

/// The name of the repository decides where all else is acceptable: any name is that opens
/// no pipeline command.
pub proof fn law_repository_opens_no_command(
    params: AddPrCommentParams,
    other: AddPrCommentParams,
    repository: String,
    accepted: Result<(), ValidationError>,
    result: Result<(), ValidationError>,
)
    requires
        call_ensures(AddPrCommentParams::validate, (&params,), accepted),
        call_ensures(AddPrCommentParams::validate, (&other,), result),
        accepted is Ok,
        other == (AddPrCommentParams { repository, ..params }),
    ensures
        (forall|at: int| !#[trigger] opening_stands_at(repository@, at)) ==> result is Ok,
        (exists|at: int| #[trigger] opening_stands_at(repository@, at)) ==> result == Err::<
            (),
            ValidationError,
        >(ValidationError::RepositoryHoldsCommand),
{
    lemma_fields_in_plain_terms(other);
}

/// Where all else is acceptable, a path is accepted exactly where it is on its own, and
/// what is wrong with it is reported as it is on its own.
pub proof fn law_path_is_checked_as_on_its_own(
    params: AddPrCommentParams,
    other: AddPrCommentParams,
    path: String,
    path_text: &str,
    checked: Result<(), FilePathError>,
    accepted: Result<(), ValidationError>,
    result: Result<(), ValidationError>,
)
    requires
        call_ensures(AddPrCommentParams::validate, (&params,), accepted),
        call_ensures(AddPrCommentParams::validate, (&other,), result),
        call_ensures(validate_file_path, (path_text,), checked),
        path_text@ == path@,
        accepted is Ok,
        other == (AddPrCommentParams { file_path: Some(path), ..params }),
    ensures
        checked is Ok ==> result is Ok,
        checked matches Err(error) ==> result == Err::<(), ValidationError>(
            ValidationError::FilePath(error),
        ),
{
}

/// Where all else is acceptable, any line is accepted with a file, and none without one;
/// a first line is not accepted without a last.
pub proof fn law_lines_come_with_what_they_need(
    params: AddPrCommentParams,
    lined: AddPrCommentParams,
    started: AddPrCommentParams,
    line: i32,
    accepted: Result<(), ValidationError>,
    lined_result: Result<(), ValidationError>,
    started_result: Result<(), ValidationError>,
)
    requires
        call_ensures(AddPrCommentParams::validate, (&params,), accepted),
        call_ensures(AddPrCommentParams::validate, (&lined,), lined_result),
        call_ensures(AddPrCommentParams::validate, (&started,), started_result),
        accepted is Ok,
        params.start_line is None,
        params.line is None,
        lined == (AddPrCommentParams { line: Some(line), ..params }),
        started == (AddPrCommentParams { start_line: Some(line), ..params }),
    ensures
        params.file_path is Some ==> lined_result is Ok,
        params.file_path is None ==> lined_result == Err::<(), ValidationError>(
            ValidationError::LineWithoutFilePath,
        ),
        started_result == Err::<(), ValidationError>(ValidationError::StartLineWithoutLine),
{
}

/// Of several faults the first is reported, in the order: the number of the pull request,
/// the length of the content, the status, a line without a file, a first line without a
/// last, a first line that does not come before the last, the path, the repository.
pub proof fn law_the_first_fault_is_reported(
    params: AddPrCommentParams,
    result: Result<(), ValidationError>,
)
    requires
        call_ensures(AddPrCommentParams::validate, (&params,), result),
    ensures
        ({
            let positive = params.pull_request_id > 0;
            let long = positive && params.content@.len() > 10;
            let known = long && exists|n: int| #[trigger] spells_status(params.status@, n);
            let filed = known && (params.line is Some ==> params.file_path is Some);
            let ended = filed && (params.start_line is Some ==> params.line is Some);
            let ordered = ended && (params.start_line is Some ==> params.start_line->Some_0
                < params.line->Some_0);
            let down = ordered && (params.file_path matches Some(path) ==> leads_down(path@));
            &&& !positive ==> result == Err::<(), ValidationError>(
                ValidationError::PullRequestIdNotPositive,
            )
            &&& positive && !long ==> result == Err::<(), ValidationError>(
                ValidationError::ContentTooShort,
            )
            &&& long && !known ==> result == Err::<(), ValidationError>(
                ValidationError::UnknownStatus,
            )
            &&& known && !filed ==> result == Err::<(), ValidationError>(
                ValidationError::LineWithoutFilePath,
            )
            &&& filed && !ended ==> result == Err::<(), ValidationError>(
                ValidationError::StartLineWithoutLine,
            )
            &&& ended && !ordered ==> result == Err::<(), ValidationError>(
                ValidationError::StartLineNotBeforeLine {
                    start: params.start_line->Some_0,
                    end: params.line->Some_0,
                },
            )
            &&& ordered && !down ==> (result matches Err(ValidationError::FilePath(_)))
            &&& down && (exists|at: int| #[trigger] opening_stands_at(params.repository@, at))
                ==> result == Err::<(), ValidationError>(ValidationError::RepositoryHoldsCommand)
        }),
{
    lemma_fields_in_plain_terms(params);
}

/// A thread is made of parameters exactly where they are accepted. It holds every field of
/// them as it was, under the name of the tool, and otherwise the error is the one that
/// validation gives.
pub proof fn law_accepted_parameters_are_kept(
    params: AddPrCommentParams,
    checked: Result<(), ValidationError>,
    result: Result<AddPrCommentResult, ValidationError>,
)
    requires
        call_ensures(AddPrCommentParams::validate, (&params,), checked),
        call_ensures(
            <AddPrCommentResult as TryFrom<AddPrCommentParams>>::try_from,
            (params,),
            result,
        ),
    ensures
        result is Ok <==> checked is Ok,
        checked matches Err(error) ==> result == Err::<AddPrCommentResult, ValidationError>(error),
        result matches Ok(thread) ==> {
            &&& thread.name@ == "add-pr-comment"@
            &&& thread.pull_request_id == params.pull_request_id
            &&& thread.content == params.content
            &&& thread.repository == params.repository
            &&& thread.file_path == params.file_path
            &&& thread.start_line == params.start_line
            &&& thread.line == params.line
            &&& thread.status == params.status
        },
{
}

/// Cleaning a thread cleans its texts one by one, each as it would be on its own, and
/// leaves the numbers and the name of the tool alone.
pub proof fn law_each_text_is_cleaned_on_its_own(
    content: &str,
    repository: &str,
    status: &str,
    path: &str,
    safe_content: String,
    safe_repository: String,
    clean_status: String,
    clean_path: String,
)
    requires
        call_ensures(sanitize, (content,), safe_content),
        call_ensures(sanitize_config, (repository,), safe_repository),
        call_ensures(strip_controls, (status,), clean_status),
        call_ensures(strip_controls, (path,), clean_path),
    ensures
        forall|thread: &mut AddPrCommentResult| #[trigger]
            call_ensures(AddPrCommentResult::sanitize_content_fields, (thread,), ())
                && thread.content@ == content@ ==> final(thread).content@ == safe_content@,
        forall|thread: &mut AddPrCommentResult| #[trigger]
            call_ensures(AddPrCommentResult::sanitize_content_fields, (thread,), ())
                && thread.repository@ == repository@ ==> final(thread).repository@
                == safe_repository@,
        forall|thread: &mut AddPrCommentResult| #[trigger]
            call_ensures(AddPrCommentResult::sanitize_content_fields, (thread,), ())
                && thread.status@ == status@ ==> final(thread).status@ == clean_status@,
        forall|thread: &mut AddPrCommentResult| #[trigger]
            call_ensures(AddPrCommentResult::sanitize_content_fields, (thread,), ())
                && thread.file_path is Some && thread.file_path->Some_0@ == path@ ==> {
                &&& final(thread).file_path is Some
                &&& final(thread).file_path->Some_0@ == clean_path@
            },
        forall|thread: &mut AddPrCommentResult| #[trigger]
            call_ensures(AddPrCommentResult::sanitize_content_fields, (thread,), ()) ==> {
                &&& thread.file_path is None ==> final(thread).file_path is None
                &&& final(thread).name == thread.name
                &&& final(thread).pull_request_id == thread.pull_request_id
                &&& final(thread).start_line == thread.start_line
                &&& final(thread).line == thread.line
            },
{
}

/// The summary of a run that does nothing names the pull request by its number.
pub proof fn law_summary_names_the_pull_request(thread: AddPrCommentResult, summary: String)
    requires
        call_ensures(AddPrCommentResult::dry_run_summary, (&thread,), summary),
    ensures
        ({
            let start = "add comment to PR #"@;
            let number = summary@.skip(start.len() as int);
            summary@ == start + number && writes_integer(number, thread.pull_request_id as int)
        }),
{
    let start = "add comment to PR #"@;
    law_decimal_reads_back(thread.pull_request_id as int);
    assert(summary@.skip(start.len() as int) =~= decimal(thread.pull_request_id as int));
}

/// What is said of parameters that are not accepted.
pub proof fn law_violations_in_words(error: ValidationError, text: String)
    requires
        call_ensures(ValidationError::message, (&error,), text),
    ensures
        match error {
            ValidationError::PullRequestIdNotPositive => text@
                == "pull_request_id must be positive"@,
            ValidationError::ContentTooShort => text@ == "content must be at least 10 characters"@,
            ValidationError::UnknownStatus => text@ == "status must be one of: "@
                + "active, fixed, wont-fix, closed, by-design"@,
            ValidationError::LineWithoutFilePath => text@ == "line requires file_path to be set"@,
            ValidationError::StartLineWithoutLine => text@ == "start_line requires line to be set"@,
            ValidationError::StartLineNotBeforeLine { start, end } => text@ == "start_line ("@
                + decimal(start as int) + ") must be less than line ("@ + decimal(end as int)
                + ")"@,
            ValidationError::FilePath(FilePathError::Empty) => text@
                == "file_path must not be empty"@,
            ValidationError::FilePath(FilePathError::ParentComponent) => text@
                == "file_path must not contain a '..' path component"@,
            ValidationError::FilePath(FilePathError::Absolute) => text@
                == "file_path must not be absolute"@,
            ValidationError::RepositoryHoldsCommand => text@
                == "repository must not contain a pipeline command"@,
        },
{
    lemma_valid_statuses_text();
}

} // verus!
