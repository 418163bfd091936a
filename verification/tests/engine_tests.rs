use diff_ba::engine::diff;
use diff_ba::script::ClassifiedLine;

fn lines(items: &[&str]) -> Vec<String> {
    items.iter().map(|s| s.to_string()).collect()
}

#[test]
fn diff_appended_line() {
    let before = lines(&["foo", "bar"]);
    let after = lines(&["foo", "bar", "baz"]);
    let script = diff(&before, &after);
    let expected = vec![
        ClassifiedLine::Common("foo".to_string(), "foo".to_string()),
        ClassifiedLine::Common("bar".to_string(), "bar".to_string()),
        ClassifiedLine::AddedOnly("baz".to_string()),
    ];
    assert_eq!(script, expected);
}

#[test]
fn diff_removed_line() {
    let before = lines(&["foo", "bar"]);
    let after = lines(&["foo"]);
    let script = diff(&before, &after);
    let expected = vec![
        ClassifiedLine::Common("foo".to_string(), "foo".to_string()),
        ClassifiedLine::RemovedOnly("bar".to_string()),
    ];
    assert_eq!(script, expected);
}

#[test]
fn diff_replaced_line() {
    let before = lines(&["foo", "bar"]);
    let after = lines(&["foo", "baz"]);
    let script = diff(&before, &after);
    let expected = vec![
        ClassifiedLine::Common("foo".to_string(), "foo".to_string()),
        ClassifiedLine::RemovedOnly("bar".to_string()),
        ClassifiedLine::AddedOnly("baz".to_string()),
    ];
    assert_eq!(script, expected);
}

#[test]
fn diff_identical_sequences_all_common() {
    let s = lines(&["alpha", "beta", "gamma"]);
    let script = diff(&s, &s);
    let expected = vec![
        ClassifiedLine::Common("alpha".to_string(), "alpha".to_string()),
        ClassifiedLine::Common("beta".to_string(), "beta".to_string()),
        ClassifiedLine::Common("gamma".to_string(), "gamma".to_string()),
    ];
    assert_eq!(script, expected);
}

#[test]
fn diff_disjoint_sequences_no_common() {
    let before = lines(&["one", "two"]);
    let after = lines(&["three", "four", "five"]);
    let script = diff(&before, &after);
    assert_eq!(script.len(), before.len() + after.len());
    for entry in &script {
        assert!(!matches!(entry, ClassifiedLine::Common(_, _)));
    }
    // Removed lines precede added ones when nothing matches.
    let expected = vec![
        ClassifiedLine::RemovedOnly("one".to_string()),
        ClassifiedLine::RemovedOnly("two".to_string()),
        ClassifiedLine::AddedOnly("three".to_string()),
        ClassifiedLine::AddedOnly("four".to_string()),
        ClassifiedLine::AddedOnly("five".to_string()),
    ];
    assert_eq!(script, expected);
}

#[test]
fn diff_empty_before_all_added() {
    let before = lines(&[]);
    let after = lines(&["foo", "bar"]);
    let script = diff(&before, &after);
    let expected = vec![
        ClassifiedLine::AddedOnly("foo".to_string()),
        ClassifiedLine::AddedOnly("bar".to_string()),
    ];
    assert_eq!(script, expected);
}

#[test]
fn diff_empty_after_all_removed() {
    let before = lines(&["foo", "bar"]);
    let after = lines(&[]);
    let script = diff(&before, &after);
    let expected = vec![
        ClassifiedLine::RemovedOnly("foo".to_string()),
        ClassifiedLine::RemovedOnly("bar".to_string()),
    ];
    assert_eq!(script, expected);
}

#[test]
fn diff_both_empty_is_empty() {
    let before = lines(&[]);
    let after = lines(&[]);
    let script = diff(&before, &after);
    assert!(script.is_empty());
}

fn count_kinds(script: &[ClassifiedLine]) -> (usize, usize, usize) {
    let mut removed = 0;
    let mut common = 0;
    let mut added = 0;
    for entry in script {
        match entry {
            ClassifiedLine::RemovedOnly(_) => removed += 1,
            ClassifiedLine::Common(_, _) => common += 1,
            ClassifiedLine::AddedOnly(_) => added += 1,
        }
    }
    (removed, common, added)
}

#[test]
fn diff_reconstructs_both_sides() {
    let before = lines(&["a", "x", "b", "c", "x"]);
    let after = lines(&["x", "b", "y", "c", "z"]);
    let script = diff(&before, &after);
    let mut from_before: Vec<String> = Vec::new();
    let mut from_after: Vec<String> = Vec::new();
    for entry in &script {
        match entry {
            ClassifiedLine::RemovedOnly(l) => from_before.push(l.clone()),
            ClassifiedLine::Common(b, a) => {
                assert_eq!(b, a);
                from_before.push(b.clone());
                from_after.push(a.clone());
            }
            ClassifiedLine::AddedOnly(l) => from_after.push(l.clone()),
        }
    }
    assert_eq!(from_before, before);
    assert_eq!(from_after, after);
}

#[test]
fn diff_common_count_is_the_lcs_length() {
    // The longest common subsequence of these two is ["x", "b", "c"].
    let before = lines(&["a", "x", "b", "c", "x"]);
    let after = lines(&["x", "b", "y", "c", "z"]);
    let script = diff(&before, &after);
    let (removed, common, added) = count_kinds(&script);
    assert_eq!(common, 3);
    assert_eq!(removed, before.len() - 3);
    assert_eq!(added, after.len() - 3);
}

#[test]
fn diff_structural_symmetry_counts() {
    let before = lines(&["a", "x", "b", "c", "x"]);
    let after = lines(&["x", "b", "y", "c", "z"]);
    let forward = diff(&before, &after);
    let backward = diff(&after, &before);
    let (f_removed, f_common, f_added) = count_kinds(&forward);
    let (b_removed, b_common, b_added) = count_kinds(&backward);
    assert_eq!(f_common, b_common);
    assert_eq!(f_removed, b_added);
    assert_eq!(f_added, b_removed);
}

#[test]
fn diff_repeated_lines_align_in_order() {
    let before = lines(&["x", "x"]);
    let after = lines(&["x"]);
    let script = diff(&before, &after);
    let (removed, common, added) = count_kinds(&script);
    assert_eq!(common, 1);
    assert_eq!(removed, 1);
    assert_eq!(added, 0);
    let mut from_before: Vec<String> = Vec::new();
    for entry in &script {
        match entry {
            ClassifiedLine::RemovedOnly(l) => from_before.push(l.clone()),
            ClassifiedLine::Common(b, _) => from_before.push(b.clone()),
            ClassifiedLine::AddedOnly(_) => {}
        }
    }
    assert_eq!(from_before, before);
}
