use add_pr_comment::params::{
    default_repository, default_status, AddPrCommentParams, AddPrCommentResult, ValidationError,
};
use add_pr_comment::path::FilePathError;

fn params(content: &str) -> AddPrCommentParams {
    AddPrCommentParams {
        pull_request_id: 42,
        content: content.to_string(),
        repository: "self".to_string(),
        file_path: None,
        start_line: None,
        line: None,
        status: "active".to_string(),
    }
}

fn valid() -> AddPrCommentParams {
    params("This is a valid comment body text.")
}

#[test]
fn test_result_has_correct_name() {
    assert_eq!(AddPrCommentResult::NAME, "add-pr-comment");
}

#[test]
fn test_params_converts_to_result() {
    let params = AddPrCommentParams {
        pull_request_id: 42,
        content: "This is a test comment with enough characters.".to_string(),
        repository: "self".to_string(),
        file_path: None,
        start_line: None,
        line: None,
        status: "active".to_string(),
    };
    let result: AddPrCommentResult = params.try_into().unwrap();
    assert_eq!(result.name, "add-pr-comment");
    assert_eq!(result.pull_request_id, 42);
    assert!(result.content.contains("test comment"));
}

#[test]
fn test_validation_rejects_zero_pr_id() {
    let params = AddPrCommentParams {
        pull_request_id: 0,
        content: "This is a valid comment body text.".to_string(),
        repository: "self".to_string(),
        file_path: None,
        start_line: None,
        line: None,
        status: "active".to_string(),
    };
    let result: Result<AddPrCommentResult, _> = params.try_into();
    assert!(result.is_err());
}

#[test]
fn test_validation_rejects_short_content() {
    let params = AddPrCommentParams {
        pull_request_id: 42,
        content: "Too short".to_string(),
        repository: "self".to_string(),
        file_path: None,
        start_line: None,
        line: None,
        status: "active".to_string(),
    };
    let result: Result<AddPrCommentResult, _> = params.try_into();
    assert!(result.is_err());
}

#[test]
fn test_validation_rejects_repository_pipeline_command() {
    let params = AddPrCommentParams {
        pull_request_id: 42,
        content: "This is a valid comment body text.".to_string(),
        repository: "##vso[task.setvariable variable=x]y".to_string(),
        file_path: None,
        start_line: None,
        line: None,
        status: "active".to_string(),
    };
    let result: Result<AddPrCommentResult, _> = params.try_into();
    assert!(result.is_err());
}

#[test]
fn test_validation_rejects_line_without_file_path() {
    let params = AddPrCommentParams {
        pull_request_id: 42,
        content: "This is a valid comment body text.".to_string(),
        repository: "self".to_string(),
        file_path: None,
        start_line: None,
        line: Some(10),
        status: "active".to_string(),
    };
    let result: Result<AddPrCommentResult, _> = params.try_into();
    assert!(result.is_err());
}

#[test]
fn test_validation_rejects_invalid_status() {
    let params = AddPrCommentParams {
        pull_request_id: 42,
        content: "This is a valid comment body text.".to_string(),
        repository: "self".to_string(),
        file_path: None,
        start_line: None,
        line: None,
        status: "unknown".to_string(),
    };
    let result: Result<AddPrCommentResult, ValidationError> = params.try_into();
    assert!(result.is_err());
    let err = result.unwrap_err().message();
    assert!(err.contains("status must be one of"));
}

#[test]
fn test_validation_accepts_valid_statuses() {
    for s in &[
        "active",
        "fixed",
        "wont-fix",
        "closed",
        "by-design",
        "Active",
        "WontFix",
    ] {
        let params = AddPrCommentParams {
            pull_request_id: 42,
            content: "This is a valid comment body text.".to_string(),
            repository: "self".to_string(),
            file_path: None,
            start_line: None,
            line: None,
            status: s.to_string(),
        };
        let result: Result<AddPrCommentResult, _> = params.try_into();
        assert!(result.is_ok(), "Expected status '{}' to be valid", s);
    }
}

#[test]
fn test_sanitize_content_neutralizes_repository_pipeline_command() {
    let params = AddPrCommentParams {
        pull_request_id: 42,
        content: "This is a valid comment body text.".to_string(),
        repository: "##vso[task.setvariable variable=x]y".to_string(),
        file_path: None,
        start_line: None,
        line: None,
        status: "active".to_string(),
    };
    let mut result = AddPrCommentResult {
        name: "add-pr-comment".to_string(),
        pull_request_id: params.pull_request_id,
        content: params.content,
        repository: params.repository,
        file_path: params.file_path,
        start_line: params.start_line,
        line: params.line,
        status: params.status,
    };
    result.sanitize_content_fields();
    assert!(
        result.repository.contains("`##vso[`"),
        "repository pipeline command should be neutralized with backticks: {}",
        result.repository
    );
}

#[test]
fn defaults_are_self_and_active() {
    assert_eq!(default_repository(), "self");
    assert_eq!(default_status(), "active");
}

#[test]
fn each_violation_is_reported() {
    let mut p = valid();
    assert_eq!(p.validate(), Ok(()));
    p.repository = "##vso[x]".to_string();
    assert_eq!(p.validate(), Err(ValidationError::RepositoryHoldsCommand));
    p.file_path = Some("/etc/passwd".to_string());
    assert_eq!(p.validate(), Err(ValidationError::FilePath(FilePathError::Absolute)));
    p.line = Some(3);
    p.start_line = Some(3);
    assert_eq!(
        p.validate(),
        Err(ValidationError::StartLineNotBeforeLine { start: 3, end: 3 })
    );
    p.line = None;
    assert_eq!(p.validate(), Err(ValidationError::StartLineWithoutLine));
    p.file_path = None;
    p.line = Some(3);
    assert_eq!(p.validate(), Err(ValidationError::LineWithoutFilePath));
    p.status = "ACTIVE".to_string();
    assert_eq!(p.validate(), Err(ValidationError::UnknownStatus));
    p.content = "nine char".to_string();
    assert_eq!(p.validate(), Err(ValidationError::ContentTooShort));
    p.pull_request_id = -1;
    assert_eq!(p.validate(), Err(ValidationError::PullRequestIdNotPositive));
}

#[test]
fn messages_of_violations() {
    assert_eq!(
        ValidationError::PullRequestIdNotPositive.message(),
        "pull_request_id must be positive"
    );
    assert_eq!(
        ValidationError::ContentTooShort.message(),
        "content must be at least 10 characters"
    );
    assert_eq!(
        ValidationError::UnknownStatus.message(),
        "status must be one of: active, fixed, wont-fix, closed, by-design"
    );
    assert_eq!(
        ValidationError::LineWithoutFilePath.message(),
        "line requires file_path to be set"
    );
    assert_eq!(
        ValidationError::StartLineWithoutLine.message(),
        "start_line requires line to be set"
    );
    assert_eq!(
        ValidationError::StartLineNotBeforeLine { start: 12, end: -7 }.message(),
        "start_line (12) must be less than line (-7)"
    );
    assert_eq!(
        ValidationError::FilePath(FilePathError::Empty).message(),
        "file_path must not be empty"
    );
    assert_eq!(
        ValidationError::RepositoryHoldsCommand.message(),
        "repository must not contain a pipeline command"
    );
}

#[test]
fn content_has_more_than_ten_characters() {
    for text in ["", "0123456789", "\u{e9}\u{e9}\u{e9}\u{e9}\u{e9}"] {
        assert_eq!(params(text).validate(), Err(ValidationError::ContentTooShort));
    }
    let ten_wide = "\u{1f600}".repeat(10);
    assert_eq!(params(&ten_wide).validate(), Err(ValidationError::ContentTooShort));
    assert_eq!(params("0123456789a").validate(), Ok(()));
    let eleven_wide = "\u{e9}".repeat(11);
    assert_eq!(params(&eleven_wide).validate(), Ok(()));
}

#[test]
fn inline_parameters_are_kept() {
    let mut p = valid();
    p.file_path = Some("src/main.rs".to_string());
    p.start_line = Some(8);
    p.line = Some(10);
    p.repository = "tools".to_string();
    let result: AddPrCommentResult = p.try_into().unwrap();
    assert_eq!(result.content, "This is a valid comment body text.");
    assert_eq!(result.repository, "tools");
    assert_eq!(result.file_path, Some("src/main.rs".to_string()));
    assert_eq!(result.start_line, Some(8));
    assert_eq!(result.line, Some(10));
    assert_eq!(result.status, "active");
}

#[test]
fn cleaning_strips_controls_and_keeps_the_rest() {
    let mut p = valid();
    p.content = "fix:\n```suggestion\n\tif a < b && c > d { \"x\" }\n```\u{7}##vso[x]".to_string();
    p.file_path = Some("src/a\u{1}.rs".to_string());
    p.line = Some(2);
    p.status = "active".to_string();
    let mut result: AddPrCommentResult = p.try_into().unwrap();
    result.status = "act\u{9f}ive\u{0}".to_string();
    result.sanitize_content_fields();
    assert_eq!(
        result.content,
        "fix:\n```suggestion\n\tif a < b && c > d { \"x\" }\n````##vso[`x]"
    );
    assert_eq!(result.file_path, Some("src/a.rs".to_string()));
    assert_eq!(result.status, "active");
    assert_eq!(result.repository, "self");
    assert_eq!(result.line, Some(2));
    assert_eq!(result.name, "add-pr-comment");
}

#[test]
fn dry_run_names_the_pull_request() {
    let result: AddPrCommentResult = valid().try_into().unwrap();
    assert_eq!(result.dry_run_summary(), "add comment to PR #42");
}
