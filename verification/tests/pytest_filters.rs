use offload::config::GroupConfig;
use offload::framework::pytest_filter::{
    emit_hoisted_args, hoist_common_components, is_single_pass_eligible, parse_filter_string,
    FilterComponent, ParseError,
};
use offload::framework::pytest_single_pass::{
    effective_components, group_spec_from_components, records_from_report, route_group, GroupSpec,
    PartitionReport, Routing,
};
use offload::framework::TestRecord;
use offload::strmap::StrMap;

fn mark(v: &str) -> FilterComponent {
    FilterComponent::Mark(v.to_string())
}
fn keyword(v: &str) -> FilterComponent {
    FilterComponent::Keyword(v.to_string())
}
fn deselect(v: &str) -> FilterComponent {
    FilterComponent::Deselect(v.to_string())
}
fn ignore(v: &str) -> FilterComponent {
    FilterComponent::Ignore(v.to_string())
}
fn ignore_glob(v: &str) -> FilterComponent {
    FilterComponent::IgnoreGlob(v.to_string())
}
fn unknown(v: &str) -> FilterComponent {
    FilterComponent::Unknown(v.to_string())
}

#[test]
fn test_parse_empty_filter_string() {
    assert!(parse_filter_string("").unwrap().is_empty());
}

#[test]
fn test_parse_whitespace_only_filter_string() {
    assert!(parse_filter_string("   \n\t  ").unwrap().is_empty());
}

#[test]
fn test_parse_mark_short() {
    assert_eq!(parse_filter_string("-m 'not slow'").unwrap(), vec![mark("not slow")]);
}

#[test]
fn test_parse_mark_long() {
    assert_eq!(
        parse_filter_string("--markexpr 'not slow and not flaky'").unwrap(),
        vec![mark("not slow and not flaky")]
    );
}

#[test]
fn test_parse_keyword_short() {
    assert_eq!(parse_filter_string("-k 'test_foo'").unwrap(), vec![keyword("test_foo")]);
}

#[test]
fn test_parse_keyword_long() {
    assert_eq!(parse_filter_string("--keyword 'test_bar'").unwrap(), vec![keyword("test_bar")]);
}

#[test]
fn test_parse_deselect() {
    assert_eq!(
        parse_filter_string("--deselect tests/test_foo.py").unwrap(),
        vec![deselect("tests/test_foo.py")]
    );
}

#[test]
fn test_parse_ignore() {
    assert_eq!(
        parse_filter_string("--ignore tests/integration").unwrap(),
        vec![ignore("tests/integration")]
    );
}

#[test]
fn test_parse_ignore_glob() {
    assert_eq!(
        parse_filter_string("--ignore-glob '*_legacy.py'").unwrap(),
        vec![ignore_glob("*_legacy.py")]
    );
}

#[test]
fn test_parse_unknown_token() {
    assert_eq!(parse_filter_string("--no-cov").unwrap(), vec![unknown("--no-cov")]);
}

#[test]
fn test_parse_multiple_known_flags() {
    assert_eq!(
        parse_filter_string("-m 'not slow' --ignore tests/integration").unwrap(),
        vec![mark("not slow"), ignore("tests/integration")]
    );
}

#[test]
fn test_parse_known_and_unknown_mixed() {
    assert_eq!(
        parse_filter_string("-m 'not slow' --no-cov").unwrap(),
        vec![mark("not slow"), unknown("--no-cov")]
    );
}

#[test]
fn test_parse_quoted_value_with_spaces() {
    assert_eq!(
        parse_filter_string("-m \"not slow and not flaky\"").unwrap(),
        vec![mark("not slow and not flaky")]
    );
}

#[test]
fn test_parse_flag_without_value_returns_error() {
    let result = parse_filter_string("-m");
    assert!(
        matches!(result, Err(ParseError::MissingFlagValue { flag, position }) if flag == "-m" && position == 0),
    );
}

#[test]
fn test_parse_deselect_without_value_returns_error() {
    let result = parse_filter_string("--deselect");
    assert!(
        matches!(result, Err(ParseError::MissingFlagValue { flag, position }) if flag == "--deselect" && position == 0),
    );
}

#[test]
fn test_parse_invalid_shell_quoting() {
    let result = parse_filter_string("-m 'not slow");
    assert!(matches!(result, Err(ParseError::Tokenization(_))));
}

#[test]
fn parse_errors_say_what_is_missing() {
    assert_eq!(
        parse_filter_string("-k a -m").unwrap_err().message(),
        "Flag '-m' at position 2 requires a value"
    );
    assert_eq!(
        parse_filter_string("'a").unwrap_err().message(),
        "Failed to tokenize filter string: missing closing quote"
    );
}

#[test]
fn test_single_pass_eligible_with_known_only() {
    assert!(is_single_pass_eligible(&vec![mark("not slow"), ignore("tests/integration")]));
}

#[test]
fn test_single_pass_ineligible_with_unknown() {
    assert!(!is_single_pass_eligible(&vec![mark("not slow"), unknown("--no-cov")]));
}

#[test]
fn test_hoist_single_group() {
    let hoisted = hoist_common_components(&vec![vec![mark("not slow")]]);
    assert_eq!(hoisted, Some(vec![mark("not slow")]));
}

#[test]
fn test_hoist_two_groups_with_common_component() {
    let hoisted = hoist_common_components(&vec![
        vec![mark("not slow"), ignore("tests/integration")],
        vec![mark("not slow"), deselect("tests/test_old.py")],
    ]);
    assert_eq!(hoisted, Some(vec![mark("not slow")]));
}

#[test]
fn test_hoist_two_groups_with_no_common_component() {
    let hoisted = hoist_common_components(&vec![vec![mark("not slow")], vec![mark("slow")]]);
    assert_eq!(hoisted, Some(Vec::new()));
}

#[test]
fn test_hoist_three_groups() {
    let hoisted = hoist_common_components(&vec![
        vec![mark("not slow"), ignore("tests/integration")],
        vec![mark("not slow"), ignore("tests/integration")],
        vec![mark("not slow"), ignore("tests/integration")],
    ]);
    assert_eq!(hoisted, Some(vec![mark("not slow"), ignore("tests/integration")]));
}

#[test]
fn test_hoist_with_ineligible_group_returns_none() {
    let hoisted = hoist_common_components(&vec![
        vec![mark("not slow")],
        vec![mark("not slow"), unknown("--no-cov")],
    ]);
    assert_eq!(hoisted, None);
}

#[test]
fn test_hoist_empty_groups() {
    let hoisted = hoist_common_components(&[]);
    assert_eq!(hoisted, Some(Vec::new()));
}

#[test]
fn test_hoist_homogeneous_value_must_match_exactly() {
    let hoisted = hoist_common_components(&vec![vec![mark("a")], vec![mark("b")]]);
    assert_eq!(hoisted, Some(Vec::new()));
}

#[test]
fn test_hoist_kinds_may_repeat() {
    let hoisted = hoist_common_components(&vec![
        vec![deselect("a.py"), deselect("b.py")],
        vec![deselect("a.py"), deselect("b.py")],
    ]);
    assert_eq!(hoisted, Some(vec![deselect("a.py"), deselect("b.py")]));
}

#[test]
fn test_hoist_repeated_kind_partial_match() {
    let hoisted = hoist_common_components(&vec![
        vec![deselect("a.py"), deselect("b.py")],
        vec![deselect("a.py"), deselect("c.py")],
    ]);
    assert_eq!(hoisted, Some(vec![deselect("a.py")]));
}

#[test]
fn test_emit_mark() {
    assert_eq!(mark("not slow").to_cli_arg(), ("-m".to_string(), "not slow".to_string()));
}

#[test]
fn test_emit_keyword() {
    assert_eq!(keyword("test_foo").to_cli_arg(), ("-k".to_string(), "test_foo".to_string()));
}

#[test]
fn test_emit_deselect() {
    assert_eq!(
        deselect("tests/test_foo.py").to_cli_arg(),
        ("--deselect".to_string(), "tests/test_foo.py".to_string())
    );
}

#[test]
fn test_emit_ignore() {
    assert_eq!(
        ignore("tests/integration").to_cli_arg(),
        ("--ignore".to_string(), "tests/integration".to_string())
    );
}

#[test]
fn test_emit_ignore_glob() {
    assert_eq!(
        ignore_glob("*_legacy.py").to_cli_arg(),
        ("--ignore-glob".to_string(), "*_legacy.py".to_string())
    );
}

#[test]
fn test_emit_unknown() {
    assert_eq!(unknown("--no-cov").to_cli_arg(), ("".to_string(), "--no-cov".to_string()));
}

#[test]
fn test_emit_hoisted_args() {
    let args = emit_hoisted_args(&vec![mark("not slow"), ignore("tests/integration")]);
    assert_eq!(args, vec!["-m", "not slow", "--ignore", "tests/integration",]);
}

#[test]
fn test_emit_hoisted_args_empty() {
    let args = emit_hoisted_args(&[]);
    assert!(args.is_empty());
}

#[test]
fn test_component_equality() {
    let a = mark("foo");
    let b = mark("foo");
    let c = mark("bar");
    let d = keyword("foo");

    assert_eq!(a, b);
    assert_ne!(a, c);
    assert_ne!(a, d);
}

#[test]
fn emitted_arguments_parse_to_the_same_components() {
    let components = vec![mark("a b"), deselect("x.py"), ignore_glob("*")];
    let tokens = emit_hoisted_args(&components);
    let again = offload::framework::pytest_filter::parse_tokens(&tokens).unwrap();
    assert_eq!(again, components);
}

#[test]
fn test_group_spec_last_wins_mark_and_keyword() {
    let components = parse_filter_string("-m foo -m bar -k a -k b").unwrap();
    let spec = group_spec_from_components(&components);
    assert_eq!(spec.mark.as_deref(), Some("bar"));
    assert_eq!(spec.keyword.as_deref(), Some("b"));
}

#[test]
fn test_group_spec_accumulates_lists_in_order() {
    let components = parse_filter_string(
        "--deselect a.py --ignore x --deselect b.py --ignore y \
         --ignore-glob '*_x.py' --ignore-glob '*_y.py'",
    )
    .unwrap();
    let spec = group_spec_from_components(&components);
    assert_eq!(spec.deselect, vec!["a.py".to_string(), "b.py".to_string()]);
    assert_eq!(spec.ignore, vec!["x".to_string(), "y".to_string()]);
    assert_eq!(
        spec.ignore_glob,
        vec!["*_x.py".to_string(), "*_y.py".to_string()]
    );
    assert!(spec.mark.is_none() && spec.keyword.is_none());
}

#[test]
fn effective_components_specify_the_same() {
    let components = parse_filter_string("-m a --ignore x -m b").unwrap();
    let effective = effective_components(&components);
    assert_eq!(
        group_spec_from_components(&effective),
        group_spec_from_components(&components)
    );
    assert_eq!(effective.iter().filter(|c| matches!(c, FilterComponent::Mark(_))).count(), 1);
}

#[test]
fn test_records_from_report_tags_groups() {
    let report = PartitionReport {
        groups: vec![
            ("unit".to_string(), vec!["a.py::t1".to_string(), "a.py::t2".to_string()]),
            ("slow".to_string(), vec!["b.py::t3".to_string()]),
        ],
    };
    let mut groups = StrMap::new();
    groups.insert("unit".to_string(), GroupConfig { retry_count: 2, ..Default::default() });
    groups.insert(
        "slow".to_string(),
        GroupConfig { retry_count: 3, schedule_individual: true, ..Default::default() },
    );

    let records = records_from_report(&report, &groups);
    assert_eq!(records.len(), 3);

    let unit: Vec<&TestRecord> = records.iter().filter(|r| r.group == "unit").collect();
    assert_eq!(unit.len(), 2);
    assert!(unit.iter().all(|r| r.retry_count == 2 && !r.schedule_individual));
    assert_eq!(unit[0].id, "a.py::t1");
    assert_eq!(unit[1].id, "a.py::t2");

    let slow: Vec<&TestRecord> = records.iter().filter(|r| r.group == "slow").collect();
    assert_eq!(slow.len(), 1);
    assert_eq!(slow[0].id, "b.py::t3");
    assert!(slow[0].retry_count == 3 && slow[0].schedule_individual);
}

#[test]
fn test_records_from_report_untracked_group_uses_defaults() {
    let report = PartitionReport {
        groups: vec![("ghost".to_string(), vec!["a.py::t1".to_string()])],
    };
    let records = records_from_report(&report, &StrMap::new());
    assert_eq!(records.len(), 1);
    assert_eq!(records[0].retry_count, 0);
    assert!(!records[0].schedule_individual);
}

#[test]
fn test_route_group_pool_for_all_known() {
    match route_group("-m 'not slow' --ignore tests/integration").unwrap() {
        Routing::Pool(components) => assert_eq!(components.len(), 2),
        Routing::Fallback => panic!("expected Pool routing"),
    }
}

#[test]
fn test_route_group_fallback_for_unknown_token() {
    assert!(matches!(route_group("-m 'not slow' --no-cov").unwrap(), Routing::Fallback));
}

#[test]
fn test_route_group_empty_is_pool() {
    match route_group("").unwrap() {
        Routing::Pool(components) => assert!(components.is_empty()),
        Routing::Fallback => panic!("expected empty Pool routing"),
    }
}

#[test]
fn test_route_group_parse_error_is_err() {
    assert!(route_group("-m").is_err());
}

#[test]
fn test_empty_filters_produce_empty_spec() {
    let spec = group_spec_from_components(&[]);
    assert_eq!(spec, GroupSpec::default());
    assert!(spec.mark.is_none() && spec.keyword.is_none());
    assert!(spec.deselect.is_empty() && spec.ignore.is_empty() && spec.ignore_glob.is_empty());
}

#[test]
fn test_single_group_spec_contains_all_components() {
    let components = parse_filter_string("-m slow --ignore tests/x").unwrap();
    let spec = group_spec_from_components(&components);
    assert_eq!(spec.mark.as_deref(), Some("slow"));
    assert_eq!(spec.ignore, vec!["tests/x".to_string()]);
    assert!(spec.keyword.is_none() && spec.deselect.is_empty());
}

#[test]
fn parsed_components_return_with_unknown_arguments() {
    let parsed = parse_filter_string("-m 'a b' --strict --ignore x.py -q tests/a.py").unwrap();
    assert_eq!(
        parsed,
        vec![mark("a b"), unknown("--strict"), ignore("x.py"), unknown("-q"), unknown("tests/a.py")]
    );
    let tokens = emit_hoisted_args(&parsed);
    let again = offload::framework::pytest_filter::parse_tokens(&tokens).unwrap();
    assert_eq!(again, parsed);
}
