use transit_enrich::model::{Model, StopPoint, Coord, ObjectCode, ObjectType};
use transit_enrich::rules::{parse_code_rules, resolve_code_lines};
use transit_enrich::codes::{apply_code_rules, ReportEntry};

fn stop(id: &str) -> StopPoint {
    StopPoint {
        id: id.to_string(),
        coord: Coord { lat_udeg: 0, lon_udeg: 0 },
        contributor_id: "c1".to_string(),
        stop_area_id: "SA1".to_string(),
    }
}

fn model() -> Model {
    Model {
        stop_points: vec![stop("SP1"), stop("SP2")],
        stop_areas: vec!["SA1".to_string()],
        lines: vec!["L1".to_string()],
        routes: vec!["R1".to_string()],
        transfers: vec![],
        object_codes: vec![],
    }
}

fn parsed(ls: &[&str]) -> Vec<transit_enrich::rules::ParsedCodeLine> {
    let files = vec![ls.iter().map(|s| s.to_string()).collect::<Vec<String>>()];
    resolve_code_lines(&parse_code_rules(&files))
}

#[test]
fn test_apply_complementary_codes() {
    // One rule per entity kind; each is applied and lands in the table.
    let mut m = model();
    let report = apply_code_rules(
        &mut m,
        &parsed(&[
            "object_type,object_id,object_system,object_code",
            "stop_point,SP1,gtfs_stop_code,4223",
            "stop_area,SA1,gtfs_stop_code,4224",
            "line,L1,gtfs_line_code,l2",
            "route,R1,gtfs_route_code,r9",
        ]),
    );
    assert_eq!(report.len(), 4);
    assert!(report.iter().all(|e| matches!(e, ReportEntry::Applied(_))));
    assert_eq!(m.object_codes.len(), 4);
    assert_eq!(m.object_codes[0].object_type, ObjectType::StopPoint);
    assert_eq!(m.object_codes[0].object_id, "SP1");
    assert_eq!(m.object_codes[0].code_key, "gtfs_stop_code");
    assert_eq!(m.object_codes[0].code_value, "4223");
}

#[test]
fn missing_target_is_reported_and_the_table_is_untouched() {
    let mut m = model();
    let report = apply_code_rules(&mut m, &parsed(&["stop_point,ABSENT,gtfs,1"]));
    assert_eq!(report.len(), 1);
    match &report[0] {
        ReportEntry::TargetNotFound(c) => assert_eq!(c.object_id, "ABSENT"),
        _ => panic!("expected a not-found entry"),
    }
    assert!(m.object_codes.is_empty());
}

#[test]
fn conflicting_value_is_reported_and_the_model_wins() {
    let mut m = model();
    m.object_codes.push(ObjectCode {
        object_type: ObjectType::StopPoint,
        object_id: "SP1".to_string(),
        code_key: "gtfs".to_string(),
        code_value: "OLD".to_string(),
    });
    let report = apply_code_rules(&mut m, &parsed(&["stop_point,SP1,gtfs,NEW"]));
    match &report[0] {
        ReportEntry::ValueConflict(c, existing) => {
            assert_eq!(c.code_value, "NEW");
            assert_eq!(existing, "OLD");
        },
        _ => panic!("expected a conflict entry"),
    }
    assert_eq!(m.object_codes.len(), 1);
    assert_eq!(m.object_codes[0].code_value, "OLD");
}

#[test]
fn same_value_collapses_to_one_row() {
    let mut m = model();
    m.object_codes.push(ObjectCode {
        object_type: ObjectType::StopPoint,
        object_id: "SP1".to_string(),
        code_key: "gtfs".to_string(),
        code_value: "SAME".to_string(),
    });
    let report = apply_code_rules(&mut m, &parsed(&["stop_point,SP1,gtfs,SAME"]));
    assert!(matches!(&report[0], ReportEntry::Applied(_)));
    assert_eq!(m.object_codes.len(), 1);
}

#[test]
fn malformed_lines_become_report_entries() {
    let mut m = model();
    let report = apply_code_rules(&mut m, &parsed(&["junk,SP1,gtfs,1", "stop_point,SP1,gtfs,1"]));
    assert_eq!(report.len(), 2);
    assert!(matches!(&report[0], ReportEntry::Malformed(_)));
    assert!(matches!(&report[1], ReportEntry::Applied(_)));
    assert_eq!(m.object_codes.len(), 1);
}

#[test]
fn report_has_one_entry_per_resolved_rule() {
    let mut m = model();
    let items = parsed(&[
        "stop_point,SP1,gtfs,1",
        "stop_point,ABSENT,gtfs,2",
        "bad line",
        "line,L1,gtfs,3",
    ]);
    let n = items.len();
    let report = apply_code_rules(&mut m, &items);
    assert_eq!(report.len(), n);
}

#[test]
fn colliding_rules_yield_one_entry_with_the_later_value() {
    let mut m = model();
    let report = apply_code_rules(
        &mut m,
        &parsed(&["stop_point,SP1,gtfs,OLD", "stop_point,SP1,gtfs,NEW"]),
    );
    assert_eq!(report.len(), 1);
    assert_eq!(m.object_codes.len(), 1);
    assert_eq!(m.object_codes[0].code_value, "NEW");
}

#[test]
fn codes_of_distinct_keys_accumulate_on_one_entity() {
    let mut m = model();
    let report = apply_code_rules(
        &mut m,
        &parsed(&["stop_point,SP1,gtfs,1", "stop_point,SP1,navitia,2"]),
    );
    assert_eq!(report.len(), 2);
    assert_eq!(m.object_codes.len(), 2);
}
