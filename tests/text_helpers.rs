use gitx::model::DiffLine;
use gitx::patch::{
    add_ignore_entry, count_changes, delta_status_name, hunk_header, hunk_patch, push_printed_line,
    split_lines, untracked_diff, DeltaKind,
};
use gitx::refs::{
    branch_list, git_dir_path, is_git_repository, labels_at, remote_branch_names, remote_ref_name, tag_list,
    tag_name, tag_ref_name,
};
use gitx::status::{format_status, status_entries, StatusFlags};
use gitx::window::{
    branch_label, repo_display_name, url_with_path, window_label, window_title, window_url,
};

fn flags() -> StatusFlags {
    StatusFlags {
        index_new: false,
        index_modified: false,
        index_deleted: false,
        index_renamed: false,
        wt_new: false,
        wt_modified: false,
        wt_deleted: false,
        wt_renamed: false,
    }
}

fn strings(v: &[&str]) -> Vec<String> {
    v.iter().map(|s| s.to_string()).collect()
}

#[test]
fn status_words() {
    assert_eq!(format_status(flags()), "unknown");
    assert_eq!(format_status(StatusFlags { wt_new: true, ..flags() }), "added");
    assert_eq!(format_status(StatusFlags { index_modified: true, wt_deleted: true, ..flags() }), "modified");
    assert_eq!(format_status(StatusFlags { wt_deleted: true, ..flags() }), "deleted");
    assert_eq!(format_status(StatusFlags { index_renamed: true, ..flags() }), "renamed");
}

#[test]
fn status_entries_staged_then_unstaged() {
    let e = status_entries("src/a.rs", StatusFlags { index_modified: true, wt_modified: true, ..flags() });
    assert_eq!(e.len(), 2);
    assert!(e[0].staged);
    assert!(!e[1].staged);
    assert_eq!(e[1].path, "src/a.rs");
    assert_eq!(e[1].status, "modified");
    assert!(status_entries("x", flags()).is_empty());
    let only = status_entries("n", StatusFlags { wt_new: true, ..flags() });
    assert_eq!(only.len(), 1);
    assert!(!only[0].staged);
    assert_eq!(only[0].status, "added");
}

#[test]
fn git_dir_paths() {
    assert_eq!(git_dir_path("/repo"), "/repo/.git");
    assert_eq!(git_dir_path("/repo/"), "/repo/.git");
    assert_eq!(git_dir_path(""), ".git");
    assert!(!is_git_repository("/definitely/not/here/at/all"));
}

#[test]
fn remote_branches_drop_prefix_and_head() {
    let names = strings(&["origin/main", "origin/HEAD", "upstream/dev", "origin/feature/x", "originx/y"]);
    assert_eq!(remote_branch_names("origin", &names), strings(&["main", "feature/x"]));
    assert!(remote_branch_names("none", &names).is_empty());
}

#[test]
fn tags_from_references() {
    assert_eq!(tag_name("refs/tags/v1.0"), Some("v1.0".to_string()));
    assert_eq!(tag_name("refs/heads/main"), None);
    let refs = strings(&["refs/tags/v2", "refs/heads/main", "refs/tags/v10", "refs/tags/a"]);
    assert_eq!(tag_list(&refs), strings(&["a", "v10", "v2"]));
    assert_eq!(tag_ref_name("v1"), "refs/tags/v1");
    assert_eq!(remote_ref_name("origin/dev"), "refs/remotes/origin/dev");
}

#[test]
fn branch_list_marks_head() {
    let names = strings(&["dev", "main"]);
    let b = branch_list(false, Some("main"), &names);
    assert_eq!(b.len(), 2);
    assert!(!b[0].is_head);
    assert!(b[1].is_head);
    let d = branch_list(true, Some("main"), &names);
    assert_eq!(d.len(), 3);
    assert_eq!(d[0].name, "HEAD (detached)");
    assert!(d[0].is_head);
    assert!(!d[2].is_head);
}

#[test]
fn lines_split_like_str_lines() {
    assert_eq!(split_lines("a\r\nb\n\nc"), strings(&["a", "b", "", "c"]));
    assert_eq!(split_lines("x\n"), strings(&["x"]));
    assert!(split_lines("").is_empty());
}

#[test]
fn hunk_patch_takes_four_header_lines() {
    let diff = "diff --git a/f b/f\nindex 1..2 100644\n--- a/f\n+++ b/f\n@@ -1 +1 @@\n-a\n+b\n";
    let p = hunk_patch(diff, "@@ -1 +1 @@", "-a\n+b");
    assert_eq!(p, "diff --git a/f b/f\nindex 1..2 100644\n--- a/f\n+++ b/f\n@@ -1 +1 @@\n-a\n+b\n");
    assert_eq!(hunk_patch("only", "h", "l"), "only\nh\nl\n");
}

#[test]
fn ignore_entries() {
    assert_eq!(add_ignore_entry("", "target"), "target\n");
    assert_eq!(add_ignore_entry("a", "b"), "a\nb\n");
    assert_eq!(add_ignore_entry("a\n", "b"), "a\nb\n");
}

#[test]
fn untracked_file_diff() {
    assert_eq!(untracked_diff("x\ny\n"), "@@ -0,0 +1,2 @@\n+x\n+y\n");
    assert_eq!(untracked_diff(""), "@@ -0,0 +1,0 @@\n");
}

#[test]
fn printed_diff_lines() {
    let mut s = String::new();
    push_printed_line(&mut s, '+', "new\n");
    push_printed_line(&mut s, 'F', "diff --git a b\n");
    push_printed_line(&mut s, ' ', "ctx\n");
    assert_eq!(s, "+new\ndiff --git a b\n ctx\n");
}

#[test]
fn hunk_headers_and_counts() {
    assert_eq!(hunk_header(1, 0, 1, 12), "@@ -1,0 +1,12 @@");
    assert_eq!(hunk_header(4294967295, 10, 0, 7), "@@ -4294967295,10 +0,7 @@");
    let lines = vec![
        DiffLine { old_lineno: None, new_lineno: Some(1), origin: '+', content: "a".to_string() },
        DiffLine { old_lineno: Some(1), new_lineno: None, origin: '-', content: "b".to_string() },
        DiffLine { old_lineno: Some(2), new_lineno: Some(2), origin: ' ', content: "c".to_string() },
        DiffLine { old_lineno: None, new_lineno: Some(3), origin: '+', content: "d".to_string() },
    ];
    let origins: Vec<char> = lines.iter().map(|l| l.origin).collect();
    assert_eq!(count_changes(&origins), (2, 1));
    assert_eq!(count_changes(&vec![]), (0, 0));
}

#[test]
fn delta_words() {
    assert_eq!(delta_status_name(DeltaKind::Added), "added");
    assert_eq!(delta_status_name(DeltaKind::Copied), "copied");
    assert_eq!(delta_status_name(DeltaKind::Other), "unknown");
}

#[test]
fn window_naming() {
    assert_eq!(window_label("/home/me/My Repo"), "repo--home-me-My-Repo");
    assert_eq!(window_label("C:\\src"), "repo-C--src");
    assert_eq!(repo_display_name("/a/b/c"), "c");
    assert_eq!(repo_display_name("C:\\x\\y"), "y");
    assert_eq!(repo_display_name("plain"), "plain");
    assert_eq!(repo_display_name("/a/"), "");
    assert_eq!(window_title("gitx", "main"), "GitX-Tauri - gitx [main]");
    assert_eq!(branch_label(true, Some("main")), "HEAD (detached)");
    assert_eq!(branch_label(false, Some("main")), "main");
    assert_eq!(branch_label(false, None), "unknown");
}

#[test]
fn window_url_encodes_path() {
    assert_eq!(window_url("/a b"), "/?path=%2Fa%20b");
    assert_eq!(window_url("repo-1.x"), "/?path=repo-1.x");
    assert_eq!(url_with_path("%2Fx"), "/?path=%2Fx");
}

#[test]
fn labels_pointing_at_a_commit() {
    let refs = vec![
        ("c1".to_string(), "main".to_string()),
        ("c2".to_string(), "dev".to_string()),
        ("c1".to_string(), "origin/main".to_string()),
    ];
    assert_eq!(labels_at(&refs, &"c1".to_string()), Some(strings(&["main", "origin/main"])));
    assert_eq!(labels_at(&refs, &"c3".to_string()), None);
}
