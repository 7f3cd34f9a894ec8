use add_pr_comment::config::AddPrCommentConfig;
use add_pr_comment::execute::{
    append_stats_to_body, is_repository_allowed, is_success_status, lookup_allowed_repository,
    thread_id_of, AllowedRepository, Decision, ExecuteError, ExecutionContext, ExecutionResult,
    Reply, ThreadPlan,
};
use add_pr_comment::params::AddPrCommentResult;

fn request() -> AddPrCommentResult {
    AddPrCommentResult {
        name: "add-pr-comment".to_string(),
        pull_request_id: 42,
        content: "This is a review comment.".to_string(),
        repository: "self".to_string(),
        file_path: None,
        start_line: None,
        line: None,
        status: "active".to_string(),
    }
}

fn context() -> ExecutionContext {
    ExecutionContext {
        ado_org_url: Some("https://dev.azure.com/org/".to_string()),
        ado_project: Some("My Project".to_string()),
        access_token: Some("SECRET-REDACTED".to_string()),
        repository_name: Some("main repo".to_string()),
        allowed_repositories: vec![
            AllowedRepository { alias: "tools".to_string(), name: "org-tools".to_string() },
            AllowedRepository { alias: "docs".to_string(), name: "org-docs".to_string() },
        ],
        agent_stats: Some("\n\nstats".to_string()),
    }
}

fn planned(
    request: &AddPrCommentResult,
    ctx: &ExecutionContext,
    config: &AddPrCommentConfig,
) -> ThreadPlan {
    match request.plan(ctx, config) {
        Ok(Decision::Post(plan)) => plan,
        _ => panic!("not posted"),
    }
}

fn refused(
    request: &AddPrCommentResult,
    ctx: &ExecutionContext,
    config: &AddPrCommentConfig,
) -> String {
    match request.plan(ctx, config) {
        Ok(Decision::Refuse(result)) => {
            assert!(!result.success);
            assert!(result.data.is_none());
            result.message
        }
        _ => panic!("not refused"),
    }
}

fn failed(
    request: &AddPrCommentResult,
    ctx: &ExecutionContext,
    config: &AddPrCommentConfig,
) -> ExecuteError {
    match request.plan(ctx, config) {
        Err(error) => error,
        _ => panic!("did not fail"),
    }
}

#[test]
fn a_comment_is_planned() {
    let plan = planned(&request(), &context(), &AddPrCommentConfig::default());
    assert_eq!(
        plan.url,
        "https://dev.azure.com/org/My%20Project/_apis/git/repositories/main%20repo/pullRequests/42/threads?api-version=7.1"
    );
    assert_eq!(plan.token, "SECRET-REDACTED");
    assert_eq!(plan.project, "My Project");
    assert_eq!(plan.repository, "main repo");
    assert_eq!(plan.comment, "This is a review comment.\n\nstats");
    assert_eq!(plan.status, 1);
    assert!(plan.anchor.is_none());
    let body = plan.thread_body(None);
    assert_eq!(
        body.to_string(),
        "{\"comments\":[{\"commentType\":1,\"content\":\"This is a review comment.\\n\\nstats\",\"parentCommentId\":0}],\"status\":1}"
    );
}

#[test]
fn prefix_and_stats_follow_the_configuration() {
    let mut config = AddPrCommentConfig::default();
    config.comment_prefix = Some("[Agent Review] ".to_string());
    config.include_stats = false;
    let plan = planned(&request(), &context(), &config);
    assert_eq!(plan.comment, "[Agent Review] This is a review comment.");
    assert_eq!(append_stats_to_body("x", &context(), true), "x\n\nstats");
    assert_eq!(append_stats_to_body("x", &context(), false), "x");
    let mut ctx = context();
    ctx.agent_stats = None;
    assert_eq!(append_stats_to_body("x", &ctx, true), "x");
}

#[test]
fn an_inline_comment_is_measured() {
    let mut r = request();
    r.file_path = Some("src/main.rs".to_string());
    r.start_line = Some(1);
    r.line = Some(2);
    let plan = planned(&r, &context(), &AddPrCommentConfig::default());
    let body = plan.thread_body(Some("fn main() {\n    run();\r\n}\n"));
    let place = &body["threadContext"];
    assert_eq!(place["filePath"], "/src/main.rs");
    assert_eq!(place["rightFileStart"]["line"], 1);
    assert_eq!(place["rightFileStart"]["offset"], 1);
    assert_eq!(place["rightFileEnd"]["line"], 2);
    assert_eq!(place["rightFileEnd"]["offset"], 11);
    // A file that cannot be read leaves the end at the first offset.
    let body = plan.thread_body(None);
    assert_eq!(body["threadContext"]["rightFileEnd"]["offset"], 1);
    let body = plan.thread_body(Some("one line"));
    assert_eq!(body["threadContext"]["rightFileEnd"]["offset"], 1);
}

#[test]
fn lines_of_an_anchor_have_defaults() {
    let mut r = request();
    r.file_path = Some("a.rs".to_string());
    let place = planned(&r, &context(), &AddPrCommentConfig::default()).anchor.unwrap();
    assert_eq!((place.start_line, place.end_line), (1, 1));
    r.line = Some(7);
    let place = planned(&r, &context(), &AddPrCommentConfig::default()).anchor.unwrap();
    assert_eq!((place.start_line, place.end_line), (7, 7));
    assert_eq!(place.file_path, "a.rs");
}

#[test]
fn missing_settings_break_off() {
    let config = AddPrCommentConfig::default();
    let mut ctx = context();
    ctx.repository_name = None;
    assert_eq!(failed(&request(), &ctx, &config), ExecuteError::RepositoryNameNotSet);
    ctx.access_token = None;
    assert_eq!(failed(&request(), &ctx, &config), ExecuteError::TokenNotSet);
    ctx.ado_project = None;
    assert_eq!(failed(&request(), &ctx, &config), ExecuteError::ProjectNotSet);
    ctx.ado_org_url = None;
    assert_eq!(failed(&request(), &ctx, &config), ExecuteError::OrgUrlNotSet);
    assert_eq!(ExecuteError::OrgUrlNotSet.message(), "AZURE_DEVOPS_ORG_URL not set");
    assert_eq!(ExecuteError::ProjectNotSet.message(), "SYSTEM_TEAMPROJECT not set");
    assert_eq!(
        ExecuteError::TokenNotSet.message(),
        "No access token available (SYSTEM_ACCESSTOKEN or AZURE_DEVOPS_EXT_PAT)"
    );
    assert_eq!(
        ExecuteError::RepositoryNameNotSet.message(),
        "BUILD_REPOSITORY_NAME not set and repository is 'self'"
    );
}

#[test]
fn refusals_say_why() {
    let ctx = context();
    let config = AddPrCommentConfig::default();
    let mut r = request();
    r.repository = "elsewhere".to_string();
    assert_eq!(
        refused(&r, &ctx, &config),
        "Repository alias 'elsewhere' not found in allowed repositories"
    );
    r.file_path = Some("a/../b".to_string());
    assert_eq!(
        refused(&r, &ctx, &config),
        "Invalid file_path: file_path must not contain a '..' path component"
    );
    r.status = "open".to_string();
    assert_eq!(
        refused(&r, &ctx, &config),
        "Invalid status 'open'. Valid statuses: active, fixed, wont-fix, closed, by-design"
    );
    let mut config = AddPrCommentConfig::default();
    config.allowed_statuses = vec!["Closed".to_string()];
    assert_eq!(
        refused(&r, &ctx, &config),
        "Status 'open' is not in the allowed-statuses list"
    );
    config.allowed_repositories = vec!["self".to_string(), "tools".to_string()];
    assert_eq!(
        refused(&r, &ctx, &config),
        "Repository 'elsewhere' is not in the allowed-repositories list"
    );
}

#[test]
fn a_path_is_checked_again_after_cleaning() {
    let mut r = request();
    r.file_path = Some("a/.\u{1}./b".to_string());
    let config = AddPrCommentConfig::default();
    planned(&r, &context(), &config);
    r.sanitize_content_fields();
    assert_eq!(
        refused(&r, &context(), &config),
        "Invalid file_path: file_path must not contain a '..' path component"
    );
}

#[test]
fn repositories_are_looked_up_by_alias() {
    let ctx = context();
    let config = AddPrCommentConfig::default();
    let mut r = request();
    r.repository = "docs".to_string();
    assert_eq!(planned(&r, &ctx, &config).repository, "org-docs");
    r.repository = String::new();
    assert_eq!(planned(&r, &ctx, &config).repository, "main repo");
    assert_eq!(
        lookup_allowed_repository("tools", &ctx.allowed_repositories),
        Some(&"org-tools".to_string())
    );
    assert_eq!(lookup_allowed_repository("Tools", &ctx.allowed_repositories), None);
}

#[test]
fn lists_of_allowed_repositories() {
    let list = vec!["self".to_string(), "tools".to_string()];
    assert!(is_repository_allowed(&list, "tools"));
    assert!(!is_repository_allowed(&list, "Tools"));
    assert!(!is_repository_allowed(&list, ""));
    assert!(is_repository_allowed(&Vec::new(), "anything"));
}

#[test]
fn success_is_reported() {
    let plan = planned(&request(), &context(), &AddPrCommentConfig::default());
    let answer: serde_json::Value = serde_json::from_str("{\"id\": 17, \"x\": [1]}").unwrap();
    let result = request().conclude(&plan, Reply::Created(answer)).unwrap();
    assert!(result.success);
    assert_eq!(result.message, "Added comment thread #17 to PR #42");
    let data = result.data.unwrap();
    assert_eq!(
        data.to_string(),
        "{\"project\":\"My Project\",\"pull_request_id\":42,\"repository\":\"main repo\",\"status\":\"active\",\"thread_id\":17}"
    );
}

#[test]
fn thread_ids_are_read_or_zero() {
    for (text, id) in [
        ("{\"id\": -5}", -5),
        ("{\"id\": 9223372036854775807}", i64::MAX),
        ("{\"id\": 9223372036854775808}", 0),
        ("{\"id\": 1.5}", 0),
        ("{\"id\": \"7\"}", 0),
        ("{\"ID\": 7}", 0),
        ("[7]", 0),
        ("null", 0),
    ] {
        let answer: serde_json::Value = serde_json::from_str(text).unwrap();
        assert_eq!(thread_id_of(&answer), id);
    }
}

#[test]
fn rejections_are_reported() {
    let plan = planned(&request(), &context(), &AddPrCommentConfig::default());
    let reply = Reply::Rejected {
        status: "404 Not Found".to_string(),
        body: Some("no such pull request".to_string()),
    };
    let result = request().conclude(&plan, reply).unwrap();
    assert!(!result.success);
    assert!(result.data.is_none());
    assert_eq!(
        result.message,
        "Failed to add comment to PR #42 (HTTP 404 Not Found): no such pull request"
    );
    let reply = Reply::Rejected { status: "500 Internal Server Error".to_string(), body: None };
    assert_eq!(
        request().conclude(&plan, reply).unwrap().message,
        "Failed to add comment to PR #42 (HTTP 500 Internal Server Error): Unknown error"
    );
}

#[test]
fn broken_exchanges_break_off() {
    let plan = planned(&request(), &context(), &AddPrCommentConfig::default());
    let error = request().conclude(&plan, Reply::NotSent).unwrap_err();
    assert_eq!(error, ExecuteError::RequestNotSent);
    assert_eq!(error.message(), "Failed to send request to Azure DevOps");
    let error = request().conclude(&plan, Reply::NotJson).unwrap_err();
    assert_eq!(error, ExecuteError::ResponseNotJson);
    assert_eq!(error.message(), "Failed to parse response JSON");
}

#[test]
fn status_codes_of_success() {
    assert!(!is_success_status(199));
    assert!(is_success_status(200));
    assert!(is_success_status(299));
    assert!(!is_success_status(300));
}

#[test]
fn results_are_built_plainly() {
    let result = ExecutionResult::success_with_data("ok".to_string(), serde_json::Value::from(3));
    assert!(result.success);
    assert_eq!(result.message, "ok");
    assert_eq!(result.data, Some(serde_json::Value::from(3)));
    let result = ExecutionResult::failure("no".to_string());
    assert!(!result.success);
    assert_eq!(result.message, "no");
    assert!(result.data.is_none());
}
