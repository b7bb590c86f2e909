use agent_tools::ls::{file_type_char, format_mode, format_date, Ls, LsEntry, MAX_LS_ENTRIES};
use agent_tools::tools::FileFacts;

fn entry(path: &str, ftype: char, mtime: u64) -> LsEntry {
    LsEntry {
        path: path.to_string(),
        ftype,
        mode: 0o644,
        nlink: 1,
        uid: 501,
        gid: 20,
        size: 8,
        last_modified: mtime,
    }
}

fn request(depth: Option<usize>, ignore: Option<Vec<String>>) -> Ls {
    Ls {
        path: "/base".to_string(),
        depth,
        ignore,
    }
}

#[test]
fn test_format_mode() {
    let m = |mode: u32| format_mode(mode).iter().collect::<String>();
    assert_eq!(m(0o000), "---------");
    assert_eq!(m(0o700), "rwx------");
    assert_eq!(m(0o744), "rwxr--r--");
    assert_eq!(m(0o641), "rw-r----x");
}

#[test]
fn test_ls_basic_directory() {
    let tool = request(None, None);
    assert!(tool.validate("/base", true, &Ok(FileFacts { is_file: false, is_dir: true, len: 0 })).is_ok());
    let mut walk = tool.start("/base".to_string(), Some(501));
    let (dir, depth) = walk.next_dir().unwrap();
    assert_eq!(dir, "/base");
    assert_eq!(depth, 0);
    walk.add_dir(&tool, &dir, depth, &vec![entry("/base/file1.txt", '-', 10), entry("/base/file2.txt", '-', 20)]);
    assert!(walk.next_dir().is_none());
    let content = walk.output();
    assert!(content.contains("file1.txt"));
    assert!(content.contains("file2.txt"));
    assert!(content.starts_with("User id: 501\n"));
}

#[test]
fn test_ls_recursive() {
    let tool = request(Some(1), None);
    let mut walk = tool.start("/base".to_string(), None);
    let (dir, depth) = walk.next_dir().unwrap();
    walk.add_dir(&tool, &dir, depth, &vec![entry("/base/root.txt", '-', 10), entry("/base/subdir", 'd', 20)]);
    let (dir, depth) = walk.next_dir().unwrap();
    assert_eq!(dir, "/base/subdir");
    assert_eq!(depth, 1);
    walk.add_dir(&tool, &dir, depth, &vec![entry("/base/subdir/nested.txt", '-', 5)]);
    assert!(walk.next_dir().is_none());
    let content = walk.output();
    assert!(content.contains("root.txt"));
    assert!(content.contains("subdir"));
    assert!(content.contains("nested.txt"));
}

#[test]
fn ls_does_not_descend_past_depth() {
    let tool = request(None, None);
    let mut walk = tool.start("/base".to_string(), None);
    let (dir, depth) = walk.next_dir().unwrap();
    walk.add_dir(&tool, &dir, depth, &vec![entry("/base/subdir", 'd', 20)]);
    assert!(walk.next_dir().is_none());
    assert!(walk.done);
}

#[test]
fn test_ls_with_ignore_patterns() {
    let tool = request(Some(1), Some(vec!["*.log".to_string()]));
    let mut walk = tool.start("/base".to_string(), None);
    let (dir, depth) = walk.next_dir().unwrap();
    walk.add_dir(&tool, &dir, depth, &vec![entry("/base/keep.txt", '-', 1), entry("/base/ignore.log", '-', 2)]);
    let content = walk.output();
    assert!(content.contains("keep.txt"));
    assert!(!content.contains("ignore.log"));
}

#[test]
fn ls_lists_but_does_not_enter_builtin_ignored_directories() {
    let tool = request(Some(3), None);
    let mut walk = tool.start("/base".to_string(), None);
    let (dir, depth) = walk.next_dir().unwrap();
    walk.add_dir(&tool, &dir, depth, &vec![entry("/base/node_modules", 'd', 1), entry("/base/src", 'd', 2)]);
    assert!(walk.output().contains("node_modules"));
    assert_eq!(walk.next_dir().unwrap().0, "/base/src");
    assert!(walk.next_dir().is_none());
}

#[test]
fn ls_orders_newest_first() {
    let tool = request(None, None);
    let mut walk = tool.start("/base".to_string(), None);
    let (dir, depth) = walk.next_dir().unwrap();
    walk.add_dir(&tool, &dir, depth, &vec![entry("/base/t1", '-', 100), entry("/base/t3", '-', 300), entry("/base/t2", '-', 200)]);
    let out = walk.output();
    let p3 = out.find("/base/t3").unwrap();
    let p2 = out.find("/base/t2").unwrap();
    let p1 = out.find("/base/t1").unwrap();
    assert!(p3 < p2 && p2 < p1);
}

#[test]
fn ls_truncates_at_the_global_cap() {
    let tool = request(None, None);
    let mut walk = tool.start("/base".to_string(), None);
    let (dir, depth) = walk.next_dir().unwrap();
    let entries: Vec<LsEntry> = (0..1005u64).map(|i| entry(&format!("/base/f{}", i), '-', i)).collect();
    walk.add_dir(&tool, &dir, depth, &entries);
    assert_eq!(walk.result.len(), MAX_LS_ENTRIES);
    let out = walk.output();
    assert!(out.starts_with("Directory at /base was truncated (has total 1005 entries)\n"));
    assert!(walk.next_dir().is_none());
}

#[test]
fn ls_long_format_line() {
    let e = entry("/base/a.txt", '-', 0);
    assert_eq!(e.to_long_format(), "-rw-r--r-- 1 501 20 8 Jan 01 00:00 /base/a.txt");
    assert_eq!(format_date(1_546_300_800 + 13 * 3600 + 7 * 60), "Jan 01 13:07");
    assert_eq!(format_date(1_700_000_000), "Nov 14 22:13");
}

#[test]
fn test_ls_validate_nonexistent_directory() {
    let tool = Ls {
        path: "/nonexistent/directory".to_string(),
        depth: None,
        ignore: None,
    };
    let r = tool.validate("/nonexistent/directory", false, &Err("No such file".to_string()));
    assert!(r.is_err());
    assert_eq!(r.unwrap_err(), "Directory not found: /nonexistent/directory");
}

#[test]
fn test_ls_validate_file_not_directory() {
    let tool = request(None, None);
    let r = tool.validate("/base/file.txt", true, &Ok(FileFacts { is_file: true, is_dir: false, len: 7 }));
    assert!(r.is_err());
    assert_eq!(r.unwrap_err(), "Path is not a directory: /base/file.txt");
}

#[test]
fn ls_matches_ignore_patterns() {
    let tool = request(None, Some(vec!["*.log".to_string(), "tmp?".to_string()]));
    assert!(tool.matches_ignore_patterns("/a/b/x.log"));
    assert!(tool.matches_ignore_patterns("/a/tmp1"));
    assert!(!tool.matches_ignore_patterns("/a/b/x.txt"));
    assert!(!request(None, None).matches_ignore_patterns("/a/x.log"));
    assert_eq!(request(Some(4), None).depth(), 4);
    assert_eq!(request(None, None).depth(), 0);
}

#[test]
fn file_type_characters() {
    assert_eq!(file_type_char(true, false, true), 'l');
    assert_eq!(file_type_char(false, true, false), '-');
    assert_eq!(file_type_char(false, false, true), 'd');
    assert_eq!(file_type_char(false, false, false), '-');
}
