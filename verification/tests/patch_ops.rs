use freenet_wiki_common::patch_ops::{apply_operations, delete_line, insert_after, replace_line, HashedLine};
use freenet_wiki_common::util::line_hash;

#[test]
fn test_delete_by_hash() {
    let content = "line1\nline2\nline3";
    let ops = vec![delete_line("line2")];
    let result = apply_operations(content, &ops);
    assert_eq!(result, "line1\nline3");
}

#[test]
fn test_insert_at_beginning() {
    let content = "line1\nline2";
    let ops = vec![insert_after(None, vec!["new_line".to_string()])];
    let result = apply_operations(content, &ops);
    assert_eq!(result, "new_line\nline1\nline2");
}

#[test]
fn test_insert_after_line() {
    let content = "line1\nline2\nline3";
    let ops = vec![insert_after(Some("line1"), vec!["inserted".to_string()])];
    let result = apply_operations(content, &ops);
    assert_eq!(result, "line1\ninserted\nline2\nline3");
}

#[test]
fn test_replace_line() {
    let content = "line1\nline2\nline3";
    let ops = vec![replace_line("line2", "replaced".to_string())];
    let result = apply_operations(content, &ops);
    assert_eq!(result, "line1\nreplaced\nline3");
}

#[test]
fn test_delete_is_commutative() {
    let content = "line1\nline2\nline3\nline4";

    let delete_2 = delete_line("line2");
    let delete_3 = delete_line("line3");

    let result_23 = apply_operations(content, &[delete_2.clone(), delete_3.clone()]);
    let result_32 = apply_operations(content, &[delete_3, delete_2]);

    assert_eq!(result_23, result_32);
    assert_eq!(result_23, "line1\nline4");
}

#[test]
fn test_insert_delete_commutative() {
    let content = "line1\nline2\nline3";

    let delete = delete_line("line2");
    let insert = insert_after(Some("line1"), vec!["new_line".to_string()]);

    let result_di = apply_operations(content, &[delete.clone(), insert.clone()]);
    let result_id = apply_operations(content, &[insert, delete]);

    assert_eq!(result_di, result_id);
    assert_eq!(result_di, "line1\nnew_line\nline3");
}

#[test]
fn test_multiple_inserts_same_anchor() {
    let content = "line1\nline2";

    let insert_a = insert_after(Some("line1"), vec!["A".to_string()]);
    let insert_b = insert_after(Some("line1"), vec!["B".to_string()]);

    let result_ab = apply_operations(content, &[insert_a.clone(), insert_b.clone()]);
    let result_ba = apply_operations(content, &[insert_b, insert_a]);

    assert_eq!(result_ab, "line1\nB\nA\nline2");
    assert_eq!(result_ba, "line1\nA\nB\nline2");
}

#[test]
fn test_delete_missing_line_is_noop() {
    let content = "line1\nline2";
    let ops = vec![delete_line("nonexistent")];
    let result = apply_operations(content, &ops);
    assert_eq!(result, content);
}

#[test]
fn test_replace_missing_line_is_noop() {
    let content = "line1\nline2";
    let ops = vec![replace_line("nonexistent", "replaced".to_string())];
    let result = apply_operations(content, &ops);
    assert_eq!(result, content);
}

#[test]
fn test_insert_with_missing_anchor_appends() {
    let content = "line1\nline2";
    let ops = vec![insert_after(Some("nonexistent"), vec!["new".to_string()])];
    let result = apply_operations(content, &ops);
    assert_eq!(result, "line1\nline2\nnew");
}

#[test]
fn no_operations_normalize_line_endings() {
    assert_eq!(apply_operations("a\r\nb\n", &[]), "a\nb");
    assert_eq!(apply_operations("", &[]), "");
}

#[test]
fn delete_removes_every_line_with_the_hash() {
    let ops = vec![delete_line("x")];
    assert_eq!(apply_operations("x\ny\n  x  \nz", &ops), "y\nz");
}

#[test]
fn replace_changes_only_the_first_match() {
    let ops = vec![replace_line("x", "R".to_string())];
    assert_eq!(apply_operations("a\nx\nx", &ops), "a\nR\nx");
}

#[test]
fn insert_several_lines_after_anchor() {
    let ops = vec![insert_after(Some("a"), vec!["1".to_string(), "2".to_string()])];
    assert_eq!(apply_operations("a\nb", &ops), "a\n1\n2\nb");
}

#[test]
fn hashed_line_carries_the_line_hash() {
    let l = HashedLine::new("  text ".to_string());
    assert_eq!(l.content, "  text ");
    assert_eq!(l.hash, line_hash("text"));
}

#[test]
fn delete_then_replace_commute() {
    let content = "a\nb\nc";
    let d = delete_line("a");
    let r = replace_line("c", "C".to_string());
    let x = apply_operations(content, &[d.clone(), r.clone()]);
    let y = apply_operations(content, &[r, d]);
    assert_eq!(x, y);
    assert_eq!(x, "b\nC");
}
