use supervisor::config::{Component, ConfigAggregate, Role, find_definition};

fn comp(name: &str, definition: &str) -> Component {
    Component { name: name.to_string(), definition: definition.to_string() }
}

fn agg(sources: Vec<Component>, transforms: Vec<Component>, sinks: Vec<Component>) -> ConfigAggregate {
    ConfigAggregate { sources, transforms, sinks, log_schema: String::new() }
}

#[test]
fn append_merges_disjoint_fragments() {
    let mut base = ConfigAggregate::empty();
    let frag1 = agg(vec![comp("in", "stdin")], vec![], vec![]);
    let frag2 = agg(vec![], vec![], vec![comp("out", "stdout")]);
    assert!(base.append(frag1).is_ok());
    assert!(base.append(frag2).is_ok());
    assert_eq!(base.sources.len(), 1);
    assert_eq!(base.sinks.len(), 1);
    assert_eq!(base.sources[0].name, "in");
    assert_eq!(base.sinks[0].name, "out");
}

#[test]
fn append_reports_colliding_source_name() {
    let mut base = ConfigAggregate::empty();
    let frag1 = agg(vec![comp("a", "stdin")], vec![], vec![]);
    let frag2 = agg(vec![comp("a", "journald")], vec![], vec![]);
    assert!(base.append(frag1).is_ok());
    let errs = base.append(frag2).unwrap_err();
    assert_eq!(errs.len(), 1);
    assert_eq!(errs[0].role, Role::Source);
    assert_eq!(errs[0].name, "a");
    // the conflicting contribution was not silently kept
    assert_eq!(base.sources.len(), 1);
    assert_eq!(base.sources[0].definition, "stdin");
}

#[test]
fn append_is_all_or_nothing() {
    let mut base = ConfigAggregate::empty();
    let frag1 = agg(vec![], vec![], vec![comp("out", "stdout")]);
    assert!(base.append(frag1).is_ok());
    // a fragment with one colliding sink and one fresh source merges nothing
    let frag2 = agg(vec![comp("in", "stdin")], vec![], vec![comp("out", "kafka")]);
    let errs = base.append(frag2).unwrap_err();
    assert_eq!(errs.len(), 1);
    assert_eq!(errs[0].role, Role::Sink);
    assert_eq!(errs[0].name, "out");
    assert!(base.sources.is_empty());
    assert_eq!(base.sinks.len(), 1);
}

#[test]
fn append_takes_non_empty_log_schema() {
    let mut base = ConfigAggregate::empty();
    let mut frag = ConfigAggregate::empty();
    frag.log_schema = "timestamp".to_string();
    assert!(base.append(frag).is_ok());
    assert_eq!(base.log_schema, "timestamp");
    let frag2 = ConfigAggregate::empty();
    assert!(base.append(frag2).is_ok());
    assert_eq!(base.log_schema, "timestamp");
}

#[test]
fn find_definition_looks_a_name_up() {
    let v = vec![comp("a", "stdin"), comp("b", "file")];
    assert_eq!(find_definition(&v, &"b".to_string()).unwrap(), "file");
    assert!(find_definition(&v, &"c".to_string()).is_none());
}
