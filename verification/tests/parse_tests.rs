use transit_enrich::rules::{parse_transfer_rules, parse_code_rules, resolve_code_lines,
    parse_transfer_line, parse_code_line, TransferRuleAction, ParsedCodeLine, ParseReason};
use transit_enrich::model::ObjectType;

fn lines(ls: &[&str]) -> Vec<String> {
    ls.iter().map(|s| s.to_string()).collect()
}

#[test]
fn parses_force_rule_line() {
    let r = parse_transfer_line("A,B,force,90").unwrap();
    assert_eq!(r.from_id, "A");
    assert_eq!(r.to_id, "B");
    assert_eq!(r.action, TransferRuleAction::Force(90));
}

#[test]
fn parses_all_transfer_actions() {
    assert_eq!(
        parse_transfer_line("A,B,force_oneway,5").unwrap().action,
        TransferRuleAction::ForceOneWay(5)
    );
    assert_eq!(
        parse_transfer_line("A,B,override,120").unwrap().action,
        TransferRuleAction::Override(120)
    );
    assert_eq!(parse_transfer_line("A,B,remove,").unwrap().action, TransferRuleAction::Remove);
}

#[test]
fn transfer_header_and_empty_lines_are_skipped() {
    let files = vec![lines(&[
        "from_stop_id,to_stop_id,action,transfer_time",
        "",
        "A,B,force,90",
        "",
    ])];
    let rules = parse_transfer_rules(&files).unwrap();
    assert_eq!(rules.len(), 1);
    assert_eq!(rules[0].from_id, "A");
}

#[test]
fn malformed_transfer_rule_names_file_and_line() {
    let files = vec![
        lines(&["A,B,force,90"]),
        lines(&["from_stop_id,to_stop_id,action,transfer_time", "A,B,force"]),
    ];
    let err = parse_transfer_rules(&files).unwrap_err();
    assert_eq!(err.file, 1);
    assert_eq!(err.line, 2);
    assert_eq!(err.reason, ParseReason::WrongFieldCount);
}

#[test]
fn non_numeric_duration_is_refused() {
    let files = vec![lines(&["A,B,force,9x"])];
    let err = parse_transfer_rules(&files).unwrap_err();
    assert_eq!(err.reason, ParseReason::BadDuration);
}

#[test]
fn unknown_action_is_refused() {
    let files = vec![lines(&["A,B,insert,90"])];
    let err = parse_transfer_rules(&files).unwrap_err();
    assert_eq!(err.reason, ParseReason::UnknownAction);
}

#[test]
fn remove_with_duration_is_refused() {
    let files = vec![lines(&["A,B,remove,90"])];
    let err = parse_transfer_rules(&files).unwrap_err();
    assert_eq!(err.reason, ParseReason::BadDuration);
}

#[test]
fn duration_bounds_of_u32() {
    assert_eq!(
        parse_transfer_line("A,B,force,4294967295").unwrap().action,
        TransferRuleAction::Force(4294967295)
    );
    assert_eq!(parse_transfer_line("A,B,force,4294967296").unwrap_err(), ParseReason::BadDuration);
    assert_eq!(parse_transfer_line("A,B,force,").unwrap_err(), ParseReason::BadDuration);
}

#[test]
fn parses_code_rule_line() {
    let c = parse_code_line("stop_point,SP1,gtfs_stop_code,4223").unwrap();
    assert_eq!(c.object_type, ObjectType::StopPoint);
    assert_eq!(c.object_id, "SP1");
    assert_eq!(c.code_key, "gtfs_stop_code");
    assert_eq!(c.code_value, "4223");
}

#[test]
fn parses_every_object_type_token() {
    assert_eq!(parse_code_line("stop_area,SA1,k,v").unwrap().object_type, ObjectType::StopArea);
    assert_eq!(parse_code_line("line,L1,k,v").unwrap().object_type, ObjectType::Line);
    assert_eq!(parse_code_line("route,R1,k,v").unwrap().object_type, ObjectType::Route);
}

#[test]
fn malformed_code_lines_become_entries_and_parsing_goes_on() {
    let files = vec![lines(&[
        "object_type,object_id,object_system,object_code",
        "network,N1,k,v",
        "stop_point,SP1,k,v",
        "stop_point,SP2,k",
    ])];
    let parsed = parse_code_rules(&files);
    assert_eq!(parsed.len(), 3);
    match &parsed[0] {
        ParsedCodeLine::Bad(m) => {
            assert_eq!(m.file, 0);
            assert_eq!(m.line, 2);
            assert_eq!(m.reason, ParseReason::UnknownObjectType);
        },
        _ => panic!("expected a refused line"),
    }
    assert!(matches!(&parsed[1], ParsedCodeLine::Rule(_)));
    match &parsed[2] {
        ParsedCodeLine::Bad(m) => {
            assert_eq!(m.line, 4);
            assert_eq!(m.reason, ParseReason::WrongFieldCount);
        },
        _ => panic!("expected a refused line"),
    }
}

#[test]
fn code_collision_resolution_keeps_the_later_rule() {
    let files = vec![
        lines(&["stop_point,SP1,gtfs,OLD", "stop_point,SP1,gtfs,NEW", "stop_point,SP2,gtfs,KEPT"]),
    ];
    let parsed = parse_code_rules(&files);
    let resolved = resolve_code_lines(&parsed);
    assert_eq!(resolved.len(), 2);
    match &resolved[0] {
        ParsedCodeLine::Rule(c) => {
            assert_eq!(c.object_id, "SP1");
            assert_eq!(c.code_value, "NEW");
        },
        _ => panic!("expected a rule"),
    }
    match &resolved[1] {
        ParsedCodeLine::Rule(c) => assert_eq!(c.object_id, "SP2"),
        _ => panic!("expected a rule"),
    }
}

#[test]
fn code_collision_resolution_spans_files() {
    let files = vec![lines(&["stop_point,SP1,gtfs,FIRST"]), lines(&["stop_point,SP1,gtfs,SECOND"])];
    let parsed = parse_code_rules(&files);
    let resolved = resolve_code_lines(&parsed);
    assert_eq!(resolved.len(), 1);
    match &resolved[0] {
        ParsedCodeLine::Rule(c) => assert_eq!(c.code_value, "SECOND"),
        _ => panic!("expected a rule"),
    }
}
