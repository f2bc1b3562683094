use gitx::graph::{GraphLine, LaneTable};
use gitx::layout::calculate_lanes;
use gitx::model::GitCommit;

fn commit(id: &str, parents: &[&str]) -> GitCommit {
    GitCommit {
        id: id.to_string(),
        message: format!("message of {}", id),
        author: "A. Author".to_string(),
        email: "a@example.org".to_string(),
        timestamp: "1700000000".to_string(),
        parents: parents.iter().map(|p| p.to_string()).collect(),
        branches: None,
        tags: Some(vec!["t".to_string()]),
        lane: 99,
        lines: Vec::new(),
    }
}

fn up(from: usize, to: usize, color: usize) -> GraphLine {
    GraphLine { upper: true, from, to, color }
}

fn low(from: usize, to: usize, color: usize) -> GraphLine {
    GraphLine { upper: false, from, to, color }
}

fn layout(commits: &[(&str, &[&str])]) -> Vec<GitCommit> {
    let mut v: Vec<GitCommit> = commits.iter().map(|(id, ps)| commit(id, ps)).collect();
    calculate_lanes(&mut v);
    v
}

#[test]
fn linear_history_stays_in_lane_zero() {
    let v = layout(&[("c3", &["c2"]), ("c2", &["c1"]), ("c1", &[])]);
    assert_eq!(v.iter().map(|c| c.lane).collect::<Vec<_>>(), vec![0, 0, 0]);
    assert_eq!(v[0].lines, vec![low(0, 0, 0)]);
    assert_eq!(v[1].lines, vec![up(0, 0, 0), low(0, 0, 0)]);
    assert_eq!(v[2].lines, vec![up(0, 0, 0)]);
    for c in &v {
        for l in &c.lines {
            assert_eq!(l.color, 0);
            assert_eq!(l.from, l.to);
        }
    }
}

#[test]
fn branch_and_merge() {
    let v = layout(&[
        ("c4", &["c2", "c3"]),
        ("c3", &["c1"]),
        ("c2", &["c1"]),
        ("c1", &[]),
    ]);
    assert_eq!(v[0].lane, 0);
    assert_eq!(v[0].lines, vec![low(0, 0, 0), low(0, 1, 1)]);
    assert_eq!(v[1].lane, 1);
    assert_eq!(v[1].lines, vec![up(0, 0, 0), low(0, 0, 0), up(1, 1, 1), low(1, 1, 1)]);
    assert_eq!(v[2].lane, 0);
    assert_eq!(v[2].lines, vec![up(0, 0, 0), low(0, 0, 0), up(1, 1, 1), low(1, 1, 1)]);
    assert_eq!(v[3].lane, 0);
    assert_eq!(v[3].lines, vec![up(0, 0, 0), up(1, 0, 1)]);
}

#[test]
fn layout_keeps_other_fields() {
    let v = layout(&[("b", &["a"]), ("a", &[])]);
    assert_eq!(v.len(), 2);
    assert_eq!(v[0].id, "b");
    assert_eq!(v[0].parents, vec!["a".to_string()]);
    assert_eq!(v[0].message, "message of b");
    assert_eq!(v[1].tags, Some(vec!["t".to_string()]));
    assert_eq!(v[1].branches, None);
}

#[test]
fn root_commit_clears_its_lane_for_reuse() {
    let mut t = LaneTable::new();
    let (lane, lines) = t.process(&"a".to_string(), &vec!["b".to_string(), "r".to_string()]);
    assert_eq!(lane, 0);
    assert_eq!(lines, vec![low(0, 0, 0), low(0, 1, 1)]);
    let (lane, lines) = t.process(&"r".to_string(), &vec![]);
    assert_eq!(lane, 1);
    assert_eq!(lines, vec![up(0, 0, 0), low(0, 0, 0), up(1, 1, 1)]);
    assert_eq!(t.slots.len(), 2);
    assert!(t.slots[1].is_none());
    let (lane, lines) = t.process(&"b".to_string(), &vec!["d".to_string(), "e".to_string()]);
    assert_eq!(lane, 0);
    assert_eq!(lines, vec![up(0, 0, 0), low(0, 0, 0), low(0, 1, 2)]);
    let s1 = t.slots[1].as_ref().unwrap();
    assert_eq!(s1.sha, "e");
    assert_eq!(s1.color, 2);
    assert_eq!(t.next_color, 3);
}

#[test]
fn unmatched_root_lands_in_lane_zero() {
    let v = layout(&[("x", &["y"]), ("lonely", &[])]);
    assert_eq!(v[1].lane, 0);
    assert_eq!(v[1].lines, vec![up(0, 0, 0), low(0, 0, 0)]);
}

#[test]
fn same_input_gives_same_layout() {
    let input: &[(&str, &[&str])] = &[
        ("m", &["a", "b", "c"]),
        ("b", &["a"]),
        ("c", &["a"]),
        ("a", &["z"]),
    ];
    let first = layout(input);
    let second = layout(input);
    for (x, y) in first.iter().zip(second.iter()) {
        assert_eq!(x.lane, y.lane);
        assert_eq!(x.lines, y.lines);
    }
}

#[test]
fn occupied_lanes_have_distinct_colors() {
    let mut t = LaneTable::new();
    let steps: Vec<(&str, Vec<&str>)> = vec![
        ("m", vec!["a", "b", "c"]),
        ("b", vec!["a"]),
        ("x", vec!["y", "c"]),
        ("c", vec!["a"]),
        ("a", vec![]),
    ];
    for (id, ps) in steps {
        let parents: Vec<String> = ps.iter().map(|p| p.to_string()).collect();
        t.process(&id.to_string(), &parents);
        let colors: Vec<usize> = t.slots.iter().flatten().map(|l| l.color).collect();
        for i in 0..colors.len() {
            assert!(colors[i] < t.next_color);
            for j in 0..i {
                assert_ne!(colors[i], colors[j]);
            }
        }
    }
}

#[test]
fn merge_into_awaited_parent_uses_that_lane_color() {
    let v = layout(&[("p", &["q"]), ("m", &["r", "q"])]);
    assert_eq!(v[1].lane, 1);
    assert_eq!(v[1].lines, vec![up(0, 0, 0), low(0, 0, 0), low(1, 1, 1), low(1, 0, 0)]);
}

#[test]
fn truncated_parent_stays_unresolved() {
    let v = layout(&[("a", &["gone"]), ("x", &["y"]), ("y", &[])]);
    assert_eq!(v[1].lane, 1);
    assert_eq!(v[1].lines, vec![up(0, 0, 0), low(0, 0, 0), low(1, 1, 1)]);
    assert_eq!(v[2].lane, 1);
    assert_eq!(v[2].lines, vec![up(0, 0, 0), low(0, 0, 0), up(1, 1, 1)]);
}

#[test]
fn empty_history_lays_out_nothing() {
    let v = layout(&[]);
    assert!(v.is_empty());
}
