use supervisor::config::{Component, ConfigAggregate};
use supervisor::diff::ConfigDiff;

fn comp(name: &str, definition: &str) -> Component {
    Component { name: name.to_string(), definition: definition.to_string() }
}

fn agg(sources: Vec<Component>, transforms: Vec<Component>, sinks: Vec<Component>) -> ConfigAggregate {
    ConfigAggregate { sources, transforms, sinks, log_schema: String::new() }
}

#[test]
fn diff_of_identical_generations_is_empty() {
    let g = agg(
        vec![comp("in", "stdin")],
        vec![comp("mid", "sampler")],
        vec![comp("out", "stdout")],
    );
    let h = agg(
        vec![comp("in", "stdin")],
        vec![comp("mid", "sampler")],
        vec![comp("out", "stdout")],
    );
    let d = ConfigDiff::diff(&g, &h);
    assert!(d.is_empty());
}

#[test]
fn diff_splits_added_removed_changed() {
    let old_gen = agg(
        vec![comp("in", "stdin"), comp("gone", "file")],
        vec![],
        vec![comp("out", "stdout")],
    );
    let new_gen = agg(
        vec![comp("in", "stdin"), comp("fresh", "http")],
        vec![],
        vec![comp("out", "kafka")],
    );
    let d = ConfigDiff::diff(&old_gen, &new_gen);
    assert_eq!(d.sources.added, vec!["fresh".to_string()]);
    assert_eq!(d.sources.removed, vec!["gone".to_string()]);
    assert!(d.sources.changed.is_empty());
    assert!(d.sinks.added.is_empty());
    assert!(d.sinks.removed.is_empty());
    assert_eq!(d.sinks.changed, vec!["out".to_string()]);
}

#[test]
fn changed_component_is_not_split_into_remove_and_add() {
    let old_gen = agg(vec![comp("in", "stdin")], vec![], vec![]);
    let new_gen = agg(vec![comp("in", "journald")], vec![], vec![]);
    let d = ConfigDiff::diff(&old_gen, &new_gen);
    assert_eq!(d.sources.changed, vec!["in".to_string()]);
    assert!(d.sources.added.is_empty());
    assert!(d.sources.removed.is_empty());
}

#[test]
fn diff_sets_are_pairwise_disjoint() {
    let old_gen = agg(
        vec![comp("a", "1"), comp("b", "2"), comp("c", "3")],
        vec![],
        vec![],
    );
    let new_gen = agg(
        vec![comp("b", "2"), comp("c", "9"), comp("d", "4")],
        vec![],
        vec![],
    );
    let d = ConfigDiff::diff(&old_gen, &new_gen);
    assert_eq!(d.sources.added, vec!["d".to_string()]);
    assert_eq!(d.sources.removed, vec!["a".to_string()]);
    assert_eq!(d.sources.changed, vec!["c".to_string()]);
    for n in &d.sources.added {
        assert!(!d.sources.removed.contains(n));
        assert!(!d.sources.changed.contains(n));
    }
    for n in &d.sources.removed {
        assert!(!d.sources.changed.contains(n));
    }
}

#[test]
fn initial_diff_adds_every_component() {
    let g = agg(
        vec![comp("in", "stdin")],
        vec![comp("mid", "regex")],
        vec![comp("out", "stdout"), comp("aux", "blackhole")],
    );
    let d = ConfigDiff::initial(&g);
    assert_eq!(d.sources.added, vec!["in".to_string()]);
    assert_eq!(d.transforms.added, vec!["mid".to_string()]);
    assert_eq!(d.sinks.added, vec!["out".to_string(), "aux".to_string()]);
    assert!(d.sources.removed.is_empty() && d.sources.changed.is_empty());
    assert!(d.transforms.removed.is_empty() && d.transforms.changed.is_empty());
    assert!(d.sinks.removed.is_empty() && d.sinks.changed.is_empty());
}

#[test]
fn initial_diff_equals_diff_against_empty() {
    let g = agg(vec![comp("in", "stdin")], vec![], vec![comp("out", "stdout")]);
    let d1 = ConfigDiff::initial(&g);
    let empty = ConfigAggregate::empty();
    let d2 = ConfigDiff::diff(&empty, &g);
    assert_eq!(d1.sources.added, d2.sources.added);
    assert_eq!(d1.sinks.added, d2.sinks.added);
    assert_eq!(d1.sources.removed, d2.sources.removed);
    assert_eq!(d1.sinks.changed, d2.sinks.changed);
}
