use agent_tools::fs_write::{FileCreate, FileLineTracker, FsWrite, Insert, StrReplace};
use agent_tools::tools::ToolExecutionError;

fn replace(old: &str, new: &str, all: bool) -> StrReplace {
    StrReplace {
        path: "test.txt".to_string(),
        old_str: old.to_string(),
        new_str: new.to_string(),
        replace_all: all,
    }
}

fn custom_message(r: Result<String, ToolExecutionError>) -> String {
    match r {
        Err(ToolExecutionError::Custom(m)) => m,
        other => panic!("expected a domain failure, got {:?}", other),
    }
}

#[test]
fn test_str_replace_single_occurrence() {
    let r = replace("world", "rust", false).apply("hello world");
    assert!(r.is_ok());
    assert_eq!(r.unwrap(), "hello rust");
}

#[test]
fn test_str_replace_multiple_occurrences() {
    let r = replace("foo", "baz", true).apply("foo bar foo");
    assert!(r.is_ok());
    assert_eq!(r.unwrap(), "baz bar baz");
}

#[test]
fn test_str_replace_no_match() {
    let r = replace("missing", "replacement", false).apply("hello world");
    assert!(r.is_err());
    assert_eq!(custom_message(r), "no occurrences of \"missing\" were found");
}

#[test]
fn str_replace_ambiguous_without_replace_all_fails() {
    let r = replace("foo", "baz", false).apply("foo bar foo");
    assert_eq!(custom_message(r), "2 occurrences of old_str were found when only 1 is expected");
}

#[test]
fn str_replace_single_keeps_the_rest() {
    let r = replace("é", "e", false).apply("café ☕ au lait");
    assert_eq!(r.unwrap(), "cafe ☕ au lait");
}

#[test]
fn str_replace_counts_without_overlap() {
    assert_eq!(replace("aa", "b", false).apply("aaa").unwrap(), "ba");
    assert_eq!(replace("aa", "b", true).apply("aaaa").unwrap(), "bb");
}

#[test]
fn str_replace_empty_pattern() {
    assert_eq!(replace("", "x", false).apply("").unwrap(), "x");
    assert_eq!(replace("", "-", true).apply("ab").unwrap(), "-a-b-");
    assert_eq!(custom_message(replace("", "-", false).apply("ab")), "3 occurrences of old_str were found when only 1 is expected");
}

fn insert(content: &str, line: Option<u32>) -> Insert {
    Insert {
        path: "test.txt".to_string(),
        content: content.to_string(),
        insert_line: line,
    }
}

#[test]
fn test_insert_at_line() {
    let r = insert("inserted", Some(1)).apply("line1\nline2\nline3");
    assert_eq!(r, "line1\ninserted\nline2\nline3");
}

#[test]
fn test_insert_append() {
    let r = insert("appended", None).apply("existing");
    assert_eq!(r, "existing\nappended");
}

#[test]
fn insert_clamps_beyond_the_end() {
    assert_eq!(insert("x", Some(99)).apply("a\nb"), "a\nbx\n");
    assert_eq!(insert("x", Some(99)).apply("a\nb\n"), "a\nb\nx\n");
    assert_eq!(insert("x\n", Some(0)).apply("a\n"), "x\na\n");
    assert_eq!(insert("x", Some(0)).apply(""), "x\n");
}

#[test]
fn insert_append_keeps_existing_newline() {
    assert_eq!(insert("z", None).apply("a\n"), "a\nz");
    assert_eq!(insert("z", None).apply(""), "\nz");
}

#[test]
fn test_fs_write_validate_empty_path() {
    let tool = FsWrite::Create(FileCreate {
        path: "".to_string(),
        content: "content".to_string(),
    });
    assert!(tool.validate(true).is_err());
    assert_eq!(tool.validate(true).unwrap_err(), "Path must not be empty");
}

#[test]
fn test_fs_write_validate_nonexistent_file_for_replace() {
    let tool = FsWrite::StrReplace(StrReplace {
        path: "/nonexistent/file.txt".to_string(),
        old_str: "old".to_string(),
        new_str: "new".to_string(),
        replace_all: false,
    });
    assert!(tool.validate(false).is_err());
    assert!(tool.validate(true).is_ok());
}

#[test]
fn validate_reports_every_problem() {
    let tool = FsWrite::Insert(Insert {
        path: "".to_string(),
        content: "".to_string(),
        insert_line: None,
    });
    assert_eq!(
        tool.validate(true).unwrap_err(),
        "Path must not be empty\nContent to insert must not be empty"
    );
}

#[test]
fn context_names_the_path() {
    let tool = FsWrite::Create(FileCreate {
        path: "a/b/file.txt".to_string(),
        content: "hi".to_string(),
    });
    assert_eq!(tool.path(), "a/b/file.txt");
    assert_eq!(tool.make_context().path, "a/b/file.txt");
}

#[test]
fn line_tracker_deltas() {
    let mut t = FileLineTracker::default();
    assert!(t.is_first_write);
    t.prev_fswrite_lines = 10;
    t.before_fswrite_lines = 7;
    t.lines_added_by_agent = 3;
    t.lines_removed_by_agent = 2;
    assert_eq!(t.lines_by_user(), -3);
    assert_eq!(t.lines_by_agent(), 5);
}

#[test]
fn create_writes_exactly_the_content() {
    let tool = FsWrite::Create(FileCreate {
        path: "a/b/file.txt".to_string(),
        content: "hi".to_string(),
    });
    assert!(tool.validate(false).is_ok());
    assert_eq!(tool.new_content("old text").unwrap(), "hi");
    let edit = FsWrite::Insert(insert("x", Some(1)));
    assert_eq!(edit.new_content("a\nb\n").unwrap(), "a\nx\nb\n");
}
