use add_pr_comment::config::AddPrCommentConfig;
use add_pr_comment::path::{validate_file_path, FilePathError};
use add_pr_comment::status::{
    is_status_allowed, status_to_int, valid_statuses_text, VALID_STATUSES,
};

#[test]
fn test_config_defaults() {
    let config = AddPrCommentConfig::default();
    assert!(config.comment_prefix.is_none());
    assert!(config.allowed_repositories.is_empty());
    assert!(config.allowed_statuses.is_empty());
}

#[test]
fn stats_are_included_by_default() {
    assert!(AddPrCommentConfig::default().include_stats);
}

#[test]
fn test_status_to_int_mapping() {
    // Kebab-case (canonical)
    assert_eq!(status_to_int("active"), Some(1));
    assert_eq!(status_to_int("fixed"), Some(2));
    assert_eq!(status_to_int("wont-fix"), Some(3));
    assert_eq!(status_to_int("closed"), Some(4));
    assert_eq!(status_to_int("by-design"), Some(5));
    // CamelCase (backwards compat)
    assert_eq!(status_to_int("Active"), Some(1));
    assert_eq!(status_to_int("WontFix"), Some(3));
    assert_eq!(status_to_int("ByDesign"), Some(5));
    // Invalid
    assert_eq!(status_to_int("Invalid"), None);
}

#[test]
fn other_spellings_of_statuses() {
    assert_eq!(status_to_int("Fixed"), Some(2));
    assert_eq!(status_to_int("Closed"), Some(4));
    assert_eq!(status_to_int("ACTIVE"), None);
    assert_eq!(status_to_int("wontfix"), None);
    assert_eq!(status_to_int(""), None);
}

#[test]
fn valid_statuses_are_numbered_in_order() {
    for (i, status) in VALID_STATUSES.iter().enumerate() {
        assert_eq!(status_to_int(status), Some(i as i32 + 1));
    }
    assert_eq!(valid_statuses_text(), "active, fixed, wont-fix, closed, by-design");
}

#[test]
fn test_validate_file_path_rejects_traversal() {
    assert!(validate_file_path("../etc/passwd").is_err());
    assert!(validate_file_path("src/../secret").is_err());
}

#[test]
fn test_validate_file_path_rejects_absolute() {
    assert!(validate_file_path("/etc/passwd").is_err());
    assert!(validate_file_path("\\windows\\system32").is_err());
}

#[test]
fn test_validate_file_path_accepts_valid() {
    assert!(validate_file_path("src/main.rs").is_ok());
    assert!(validate_file_path("path/to/file.txt").is_ok());
    // ".." within a component name is not a traversal
    assert!(validate_file_path("releases..notes/v1.md").is_ok());
    assert!(validate_file_path("v2..beta/file.txt").is_ok());
}

#[test]
fn each_fault_of_a_path_is_reported() {
    assert_eq!(validate_file_path(""), Err(FilePathError::Empty));
    assert_eq!(validate_file_path(".."), Err(FilePathError::ParentComponent));
    assert_eq!(validate_file_path("a\\..\\b"), Err(FilePathError::ParentComponent));
    assert_eq!(validate_file_path("a/b/.."), Err(FilePathError::ParentComponent));
    assert_eq!(validate_file_path("/a/../b"), Err(FilePathError::ParentComponent));
    assert_eq!(validate_file_path("/"), Err(FilePathError::Absolute));
    assert_eq!(validate_file_path("..."), Ok(()));
    assert_eq!(validate_file_path("./a/.b"), Ok(()));
    assert_eq!(validate_file_path("a//b"), Ok(()));
    assert_eq!(
        FilePathError::ParentComponent.message(),
        "file_path must not contain a '..' path component"
    );
    assert_eq!(FilePathError::Absolute.message(), "file_path must not be absolute");
    assert_eq!(FilePathError::Empty.message(), "file_path must not be empty");
}

#[test]
fn test_allowed_statuses_case_insensitive_match() {
    // Config has "Active" but agent sends "active" (canonical lowercase): allowed
    let config = AddPrCommentConfig {
        comment_prefix: None,
        allowed_repositories: Vec::new(),
        allowed_statuses: vec!["Active".to_string(), "Closed".to_string()],
        include_stats: true,
    };
    let status = "active";
    let matched = is_status_allowed(&config.allowed_statuses, status);
    assert!(
        matched,
        "lowercase 'active' should match config value 'Active'"
    );
}

#[test]
fn lists_of_allowed_statuses() {
    let list = vec!["Active".to_string(), "wont-fix".to_string()];
    assert!(is_status_allowed(&list, "WONT-FIX"));
    assert!(!is_status_allowed(&list, "WontFix"));
    assert!(!is_status_allowed(&list, "closed"));
    assert!(!is_status_allowed(&list, "activ"));
    assert!(is_status_allowed(&Vec::new(), "closed"));
    assert!(!is_status_allowed(&vec!["\u{c9}".to_string()], "\u{e9}"));
}
