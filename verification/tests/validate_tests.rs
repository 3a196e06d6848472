use supervisor::config::{Component, ConfigAggregate, Role};
use supervisor::runtime::exit_code;
use supervisor::validate::{
    BuildOutcome, CheckOutcome, ExpandOutcome, FileErrorKind, Finding, HealthEntry, HealthOutcome,
    PathEntry, PathOutcome, Phase, ValidateOpts, Validator, finish_load, handle_config_errors,
    read_configs,
};

fn comp(name: &str, definition: &str) -> Component {
    Component { name: name.to_string(), definition: definition.to_string() }
}

fn agg(sources: Vec<Component>, transforms: Vec<Component>, sinks: Vec<Component>) -> ConfigAggregate {
    ConfigAggregate { sources, transforms, sinks, log_schema: String::new() }
}

fn entry(path: &str, outcome: PathOutcome) -> PathEntry {
    PathEntry { path: path.to_string(), outcome }
}

fn all_on() -> ValidateOpts {
    ValidateOpts { no_topology: false, no_healthchecks: false, deny_warnings: false }
}

#[test]
fn clean_start_validates_with_exit_code_ok() {
    let entries = vec![entry(
        "vector.toml",
        PathOutcome::Parsed(agg(vec![comp("in", "stdin")], vec![], vec![comp("out", "stdout")])),
    )];
    let mut v = Validator::new(all_on());
    let fs = v.file_stage(&entries);
    assert!(fs.is_empty());
    let expanded = agg(vec![comp("in", "stdin")], vec![], vec![comp("out", "stdout")]);
    let fs = v.expand_stage(ExpandOutcome::Expanded(expanded));
    assert!(fs.is_empty());
    let fs = v.build_stage(BuildOutcome::Built {
        warnings: vec![],
        healthchecks: vec!["out".to_string()],
    });
    assert!(fs.is_empty());
    let fs = v.check_stage(Some(CheckOutcome::CheckDone { warnings: vec![] }));
    assert!(fs.is_empty());
    let results = vec![HealthEntry { name: "out".to_string(), outcome: HealthOutcome::Passed }];
    let fs = v.health_stage(Some(&results));
    assert_eq!(fs.len(), 1);
    assert!(matches!(
        &fs[0],
        Finding::HealthResult { name, outcome: HealthOutcome::Passed } if name == "out"
    ));
    let fs = v.trial_stage(true);
    assert!(fs.is_empty());
    assert_eq!(v.phase, Phase::Done);
    assert!(!v.has_failed());
    assert_eq!(exit_code(!v.has_failed()), exitcode::OK);
}

#[test]
fn missing_file_is_reported_and_the_other_file_still_parses() {
    let entries = vec![
        entry("absent.toml", PathOutcome::FileError(FileErrorKind::NotFound)),
        entry(
            "present.toml",
            PathOutcome::Parsed(agg(vec![comp("in", "stdin")], vec![], vec![])),
        ),
    ];
    let (cfg, fs) = read_configs(&entries);
    // exactly one finding: the missing file, against its own path
    assert_eq!(fs.len(), 1);
    assert!(matches!(
        &fs[0],
        Finding::FileError { path, kind: FileErrorKind::NotFound } if path == "absent.toml"
    ));
    // the other file's contribution was still merged
    assert_eq!(cfg.sources.len(), 1);
    assert_eq!(cfg.sources[0].name, "in");
    // the overall verdict is the configuration-error exit status
    let mut v = Validator::new(all_on());
    let fs = v.file_stage(&entries);
    assert!(!fs.is_empty());
    assert!(v.has_failed());
    assert_eq!(exit_code(!v.has_failed()), exitcode::CONFIG);
}

#[test]
fn unreadable_file_is_distinct_from_missing() {
    let entries = vec![entry("locked.toml", PathOutcome::FileError(FileErrorKind::Unreadable))];
    let (_, fs) = read_configs(&entries);
    assert_eq!(fs.len(), 1);
    assert!(matches!(
        &fs[0],
        Finding::FileError { kind: FileErrorKind::Unreadable, .. }
    ));
}

#[test]
fn merge_conflict_names_the_colliding_source() {
    let entries = vec![
        entry(
            "one.toml",
            PathOutcome::Parsed(agg(vec![comp("a", "stdin")], vec![], vec![])),
        ),
        entry(
            "two.toml",
            PathOutcome::Parsed(agg(vec![comp("a", "journald")], vec![], vec![])),
        ),
    ];
    let (cfg, fs) = read_configs(&entries);
    assert_eq!(fs.len(), 1);
    assert!(matches!(
        &fs[0],
        Finding::MergeConflict { path, role: Role::Source, name } if path == "two.toml" && name == "a"
    ));
    // the first definition is kept, and not silently: the finding above reports it
    assert_eq!(cfg.sources.len(), 1);
    assert_eq!(cfg.sources[0].definition, "stdin");
}

#[test]
fn parse_errors_do_not_suppress_other_files() {
    let entries = vec![
        entry(
            "broken.toml",
            PathOutcome::ParseFailed(vec!["unexpected token".to_string()]),
        ),
        entry(
            "good.toml",
            PathOutcome::Parsed(agg(vec![], vec![], vec![comp("out", "stdout")])),
        ),
    ];
    let (cfg, fs) = read_configs(&entries);
    assert_eq!(fs.len(), 1);
    assert!(matches!(
        &fs[0],
        Finding::ParseError { path, message } if path == "broken.toml" && message == "unexpected token"
    ));
    assert_eq!(cfg.sinks.len(), 1);
}

#[test]
fn expansion_failure_is_fatal_for_the_run() {
    let entries = vec![entry(
        "vector.toml",
        PathOutcome::Parsed(agg(vec![comp("in", "stdin")], vec![], vec![])),
    )];
    let mut v = Validator::new(all_on());
    v.file_stage(&entries);
    let fs = v.expand_stage(ExpandOutcome::ExpandFailed(vec!["bad macro".to_string()]));
    assert_eq!(fs.len(), 1);
    assert!(matches!(&fs[0], Finding::ExpandError { message } if message == "bad macro"));
    assert_eq!(v.phase, Phase::Done);
    assert!(v.has_failed());
}

#[test]
fn deny_warnings_escalates_component_warnings() {
    let entries = vec![entry(
        "vector.toml",
        PathOutcome::Parsed(agg(vec![comp("in", "stdin")], vec![], vec![])),
    )];
    let opts = ValidateOpts { no_topology: true, no_healthchecks: true, deny_warnings: true };
    let mut v = Validator::new(opts);
    v.file_stage(&entries);
    v.expand_stage(ExpandOutcome::Expanded(agg(vec![comp("in", "stdin")], vec![], vec![])));
    let fs = v.build_stage(BuildOutcome::Built {
        warnings: vec!["sink consumes nothing".to_string()],
        healthchecks: vec![],
    });
    assert_eq!(fs.len(), 1);
    assert!(matches!(&fs[0], Finding::ComponentWarning { .. }));
    assert!(v.has_failed());
    assert_eq!(v.phase, Phase::Done);
}

#[test]
fn warnings_alone_do_not_fail_the_run() {
    let entries = vec![entry(
        "vector.toml",
        PathOutcome::Parsed(agg(vec![comp("in", "stdin")], vec![], vec![])),
    )];
    let opts = ValidateOpts { no_topology: true, no_healthchecks: true, deny_warnings: false };
    let mut v = Validator::new(opts);
    v.file_stage(&entries);
    v.expand_stage(ExpandOutcome::Expanded(agg(vec![comp("in", "stdin")], vec![], vec![])));
    let fs = v.build_stage(BuildOutcome::Built {
        warnings: vec!["sink consumes nothing".to_string()],
        healthchecks: vec![],
    });
    assert_eq!(fs.len(), 1);
    assert!(!v.has_failed());
    v.check_stage(None);
    v.health_stage(None);
    v.trial_stage(true);
    assert!(!v.has_failed());
}

#[test]
fn build_errors_are_fatal() {
    let entries = vec![entry(
        "vector.toml",
        PathOutcome::Parsed(agg(vec![comp("in", "stdin")], vec![], vec![])),
    )];
    let mut v = Validator::new(all_on());
    v.file_stage(&entries);
    v.expand_stage(ExpandOutcome::Expanded(agg(vec![comp("in", "stdin")], vec![], vec![])));
    let fs = v.build_stage(BuildOutcome::BuildFailed {
        errors: vec!["unknown sink type".to_string()],
    });
    assert_eq!(fs.len(), 1);
    assert!(matches!(&fs[0], Finding::ComponentError { message } if message == "unknown sink type"));
    assert!(v.has_failed());
    assert_eq!(v.phase, Phase::Done);
}

#[test]
fn topology_check_errors_are_fatal() {
    let entries = vec![entry(
        "vector.toml",
        PathOutcome::Parsed(agg(vec![comp("in", "stdin")], vec![], vec![])),
    )];
    let mut v = Validator::new(all_on());
    v.file_stage(&entries);
    v.expand_stage(ExpandOutcome::Expanded(agg(vec![comp("in", "stdin")], vec![], vec![])));
    v.build_stage(BuildOutcome::Built { warnings: vec![], healthchecks: vec![] });
    let fs = v.check_stage(Some(CheckOutcome::CheckFailed {
        errors: vec!["sink reads from a missing source".to_string()],
    }));
    assert_eq!(fs.len(), 1);
    assert!(matches!(
        &fs[0],
        Finding::TopologyError { message } if message == "sink reads from a missing source"
    ));
    assert!(v.has_failed());
    assert_eq!(v.phase, Phase::Done);
}

#[test]
fn topology_warnings_escalate_only_under_deny() {
    let entries = vec![entry(
        "vector.toml",
        PathOutcome::Parsed(agg(vec![comp("in", "stdin")], vec![], vec![])),
    )];
    for (deny, expect_failed) in [(false, false), (true, true)] {
        let opts = ValidateOpts { no_topology: false, no_healthchecks: true, deny_warnings: deny };
        let mut v = Validator::new(opts);
        v.file_stage(&entries);
        v.expand_stage(ExpandOutcome::Expanded(agg(vec![comp("in", "stdin")], vec![], vec![])));
        v.build_stage(BuildOutcome::Built { warnings: vec![], healthchecks: vec![] });
        let fs = v.check_stage(Some(CheckOutcome::CheckDone {
            warnings: vec!["transform output unused".to_string()],
        }));
        assert_eq!(fs.len(), 1);
        assert!(matches!(&fs[0], Finding::TopologyWarning { .. }));
        assert_eq!(v.has_failed(), expect_failed);
    }
}

#[test]
fn faulted_healthcheck_does_not_suppress_later_checks() {
    let entries = vec![entry(
        "vector.toml",
        PathOutcome::Parsed(agg(
            vec![comp("in", "stdin")],
            vec![],
            vec![comp("a", "s1"), comp("b", "s2"), comp("c", "s3")],
        )),
    )];
    let mut v = Validator::new(all_on());
    v.file_stage(&entries);
    v.expand_stage(ExpandOutcome::Expanded(agg(
        vec![comp("in", "stdin")],
        vec![],
        vec![comp("a", "s1"), comp("b", "s2"), comp("c", "s3")],
    )));
    v.build_stage(BuildOutcome::Built {
        warnings: vec![],
        healthchecks: vec!["a".to_string(), "b".to_string(), "c".to_string()],
    });
    v.check_stage(Some(CheckOutcome::CheckDone { warnings: vec![] }));
    // the first check panicked and the second was cancelled; the third still reports
    let results = vec![
        HealthEntry { name: "a".to_string(), outcome: HealthOutcome::Panicked },
        HealthEntry { name: "b".to_string(), outcome: HealthOutcome::Cancelled },
        HealthEntry { name: "c".to_string(), outcome: HealthOutcome::Passed },
    ];
    let fs = v.health_stage(Some(&results));
    assert_eq!(fs.len(), 3);
    assert!(matches!(&fs[0], Finding::HealthResult { name, outcome: HealthOutcome::Panicked } if name == "a"));
    assert!(matches!(&fs[1], Finding::HealthResult { name, outcome: HealthOutcome::Cancelled } if name == "b"));
    assert!(matches!(&fs[2], Finding::HealthResult { name, outcome: HealthOutcome::Passed } if name == "c"));
    assert!(v.has_failed());
}

#[test]
fn failed_trial_start_fails_the_run() {
    let entries = vec![entry(
        "vector.toml",
        PathOutcome::Parsed(agg(vec![comp("in", "stdin")], vec![], vec![])),
    )];
    let opts = ValidateOpts { no_topology: true, no_healthchecks: true, deny_warnings: false };
    let mut v = Validator::new(opts);
    v.file_stage(&entries);
    v.expand_stage(ExpandOutcome::Expanded(agg(vec![comp("in", "stdin")], vec![], vec![])));
    v.build_stage(BuildOutcome::Built { warnings: vec![], healthchecks: vec![] });
    v.check_stage(None);
    v.health_stage(None);
    let fs = v.trial_stage(false);
    assert_eq!(fs.len(), 1);
    assert!(matches!(&fs[0], Finding::StartFailed));
    assert!(v.has_failed());
}

#[test]
fn finish_load_appends_expansion_errors() {
    let merged = agg(vec![comp("in", "stdin")], vec![], vec![]);
    let r = finish_load(merged, vec![], ExpandOutcome::ExpandFailed(vec!["oops".to_string()]));
    let errs = r.unwrap_err();
    assert_eq!(errs.len(), 1);
    assert!(matches!(&errs[0], Finding::ExpandError { message } if message == "oops"));
}

#[test]
fn finish_load_passes_an_expanded_generation_through() {
    let merged = agg(vec![comp("in", "stdin")], vec![], vec![]);
    let expanded = agg(vec![comp("in", "stdin"), comp("extra", "file")], vec![], vec![]);
    let r = finish_load(merged, vec![], ExpandOutcome::Expanded(expanded));
    let cfg = r.unwrap();
    assert_eq!(cfg.sources.len(), 2);
}

#[test]
fn handle_config_errors_drops_a_failed_load() {
    let good: Result<ConfigAggregate, Vec<Finding>> =
        Ok(agg(vec![comp("in", "stdin")], vec![], vec![]));
    assert!(handle_config_errors(good).is_some());
    let bad: Result<ConfigAggregate, Vec<Finding>> = Err(vec![Finding::StartFailed]);
    assert!(handle_config_errors(bad).is_none());
}
