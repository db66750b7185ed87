use transit_enrich::model::{Model, StopPoint, Coord, Transfer};
use transit_enrich::rules::parse_transfer_rules;
use transit_enrich::transfers::{generate_transfers, TransfersMode, PairDist, TransferError};

fn stop(id: &str, contributor: &str) -> StopPoint {
    StopPoint {
        id: id.to_string(),
        coord: Coord { lat_udeg: 0, lon_udeg: 0 },
        contributor_id: contributor.to_string(),
        stop_area_id: format!("SA:{}", id),
    }
}

fn model_of(stops: Vec<StopPoint>) -> Model {
    Model {
        stop_points: stops,
        stop_areas: vec![],
        lines: vec![],
        routes: vec![],
        transfers: vec![],
        object_codes: vec![],
    }
}

fn rules_of(ls: &[&str]) -> Vec<transit_enrich::rules::TransferRule> {
    let files = vec![ls.iter().map(|s| s.to_string()).collect::<Vec<String>>()];
    parse_transfer_rules(&files).unwrap()
}

fn edge_set(m: &Model) -> Vec<(String, String, u32)> {
    let mut v: Vec<(String, String, u32)> = m
        .transfers
        .iter()
        .map(|t| (t.from_id.clone(), t.to_id.clone(), t.transfer_time))
        .collect();
    v.sort();
    v
}

fn pair(a: usize, b: usize, d: u64) -> PairDist {
    PairDist { a, b, distance_m: d }
}

#[test]
fn test_generates_transfers() {
    // Three stops at mutual distances 65 m, 146 m and 206 m; only the 65 m
    // pair is close enough, and it yields both directions at 83 s
    // (65 / 0.785 rounded to the nearest second).
    let mut m = model_of(vec![stop("S1", "c1"), stop("S2", "c1"), stop("S3", "c1")]);
    let pairs = vec![pair(0, 1, 65), pair(0, 2, 146), pair(1, 2, 206)];
    let misses = generate_transfers(&mut m, &pairs, 100, 785, 120, None, TransfersMode::All,
        &vec![]).unwrap();
    assert!(misses.is_empty());
    assert_eq!(
        edge_set(&m),
        vec![("S1".to_string(), "S2".to_string(), 83), ("S2".to_string(), "S1".to_string(), 83)]
    );
    assert_eq!(m.transfers[0].distance_m, Some(65));
    assert_eq!(m.transfers[0].walking_time, Some(83));
}

#[test]
fn test_generates_transfers_with_modification_rules() {
    // A rule forcing the 206 m pair wins over the distance cap: both of
    // its directions appear with the forced duration.
    let mut m = model_of(vec![stop("S1", "c1"), stop("S2", "c1"), stop("S3", "c1")]);
    let pairs = vec![pair(0, 1, 65), pair(0, 2, 146), pair(1, 2, 206)];
    let rules = rules_of(&["S2,S3,force,90"]);
    generate_transfers(&mut m, &pairs, 100, 785, 120, None, TransfersMode::All, &rules).unwrap();
    assert_eq!(
        edge_set(&m),
        vec![
            ("S1".to_string(), "S2".to_string(), 83),
            ("S2".to_string(), "S1".to_string(), 83),
            ("S2".to_string(), "S3".to_string(), 90),
            ("S3".to_string(), "S2".to_string(), 90),
        ]
    );
}

#[test]
fn geometric_transfers_are_symmetric() {
    let mut m = model_of(vec![stop("A", "c"), stop("B", "c")]);
    let pairs = vec![pair(0, 1, 42)];
    generate_transfers(&mut m, &pairs, 100, 785, 120, None, TransfersMode::All, &vec![]).unwrap();
    let es = edge_set(&m);
    assert_eq!(es.len(), 2);
    assert_eq!(es[0].2, es[1].2);
    assert_eq!(es[0].0, es[1].1);
    assert_eq!(es[0].1, es[1].0);
}

#[test]
fn duration_cap_excludes_slow_pairs() {
    // 100 m at 0.785 m/s is 127 s: above a 120 s cap, below a 130 s cap.
    let mut m1 = model_of(vec![stop("A", "c"), stop("B", "c")]);
    let pairs = vec![pair(0, 1, 100)];
    generate_transfers(&mut m1, &pairs, 100, 785, 120, None, TransfersMode::All, &vec![]).unwrap();
    assert!(m1.transfers.is_empty());
    let mut m2 = model_of(vec![stop("A", "c"), stop("B", "c")]);
    generate_transfers(&mut m2, &pairs, 100, 785, 130, None, TransfersMode::All, &vec![]).unwrap();
    assert_eq!(edge_set(&m2)[0].2, 127);
}

#[test]
fn waiting_time_is_added_and_counted_against_the_cap() {
    let mut m = model_of(vec![stop("A", "c"), stop("B", "c")]);
    let pairs = vec![pair(0, 1, 65)];
    generate_transfers(&mut m, &pairs, 100, 785, 120, Some(10), TransfersMode::All, &vec![])
        .unwrap();
    assert_eq!(edge_set(&m)[0].2, 93);
    assert_eq!(m.transfers[0].walking_time, Some(83));
    let mut m2 = model_of(vec![stop("A", "c"), stop("B", "c")]);
    generate_transfers(&mut m2, &pairs, 100, 785, 120, Some(60), TransfersMode::All, &vec![])
        .unwrap();
    assert!(m2.transfers.is_empty());
}

#[test]
fn distance_monotonicity_on_a_concrete_model() {
    let stops = vec![stop("S1", "c"), stop("S2", "c"), stop("S3", "c")];
    let pairs = vec![pair(0, 1, 65), pair(0, 2, 146), pair(1, 2, 206)];
    let mut narrow = model_of(stops.clone());
    generate_transfers(&mut narrow, &pairs, 100, 785, 1000, None, TransfersMode::All, &vec![])
        .unwrap();
    let mut wide = model_of(stops);
    generate_transfers(&mut wide, &pairs, 150, 785, 1000, None, TransfersMode::All, &vec![])
        .unwrap();
    let narrow_edges = edge_set(&narrow);
    let wide_edges = edge_set(&wide);
    assert!(narrow_edges.iter().all(|e| wide_edges.contains(e)));
    assert!(wide_edges.len() > narrow_edges.len());
}

#[test]
fn mode_filtering_by_contributor() {
    let pairs = vec![pair(0, 1, 30)];
    let mut intra = model_of(vec![stop("A", "c1"), stop("B", "c2")]);
    generate_transfers(&mut intra, &pairs, 100, 785, 120, None,
        TransfersMode::IntraContributor, &vec![]).unwrap();
    assert!(intra.transfers.is_empty());
    let mut inter = model_of(vec![stop("A", "c1"), stop("B", "c2")]);
    generate_transfers(&mut inter, &pairs, 100, 785, 120, None,
        TransfersMode::InterContributor, &vec![]).unwrap();
    assert_eq!(inter.transfers.len(), 2);
    let mut same = model_of(vec![stop("A", "c1"), stop("B", "c1")]);
    generate_transfers(&mut same, &pairs, 100, 785, 120, None,
        TransfersMode::InterContributor, &vec![]).unwrap();
    assert!(same.transfers.is_empty());
}

#[test]
fn generation_is_idempotent() {
    let mut m = model_of(vec![stop("S1", "c"), stop("S2", "c"), stop("S3", "c")]);
    let pairs = vec![pair(0, 1, 65), pair(0, 2, 146), pair(1, 2, 206)];
    let rules = rules_of(&["S2,S3,force,90", "S1,S3,remove,", "S1,S2,override,70"]);
    generate_transfers(&mut m, &pairs, 100, 785, 120, None, TransfersMode::All, &rules).unwrap();
    let first = edge_set(&m);
    generate_transfers(&mut m, &pairs, 100, 785, 120, None, TransfersMode::All, &rules).unwrap();
    assert_eq!(edge_set(&m), first);
}

#[test]
fn later_rule_file_wins_on_collision() {
    let files = vec![vec!["S1,S2,force,50".to_string()], vec!["S1,S2,force,75".to_string()]];
    let rules = parse_transfer_rules(&files).unwrap();
    let mut m = model_of(vec![stop("S1", "c"), stop("S2", "c")]);
    generate_transfers(&mut m, &vec![], 100, 785, 120, None, TransfersMode::All, &rules).unwrap();
    assert_eq!(
        edge_set(&m),
        vec![("S1".to_string(), "S2".to_string(), 75), ("S2".to_string(), "S1".to_string(), 75)]
    );
}

#[test]
fn remove_rule_deletes_geometric_edges() {
    let mut m = model_of(vec![stop("A", "c"), stop("B", "c")]);
    let pairs = vec![pair(0, 1, 30)];
    let rules = rules_of(&["A,B,remove,"]);
    generate_transfers(&mut m, &pairs, 100, 785, 120, None, TransfersMode::All, &rules).unwrap();
    assert!(m.transfers.is_empty());
}

#[test]
fn override_rule_retimes_an_existing_edge_and_keeps_its_distance() {
    let mut m = model_of(vec![stop("A", "c"), stop("B", "c")]);
    let pairs = vec![pair(0, 1, 65)];
    let rules = rules_of(&["A,B,override,99"]);
    let misses = generate_transfers(&mut m, &pairs, 100, 785, 120, None, TransfersMode::All,
        &rules).unwrap();
    assert!(misses.is_empty());
    let es = edge_set(&m);
    assert_eq!(es[0].2, 99);
    assert_eq!(es[1].2, 99);
    assert!(m.transfers.iter().all(|t| t.distance_m == Some(65)));
}

#[test]
fn override_rule_without_an_edge_is_reported() {
    let mut m = model_of(vec![stop("A", "c"), stop("B", "c")]);
    let rules = rules_of(&["A,B,override,99"]);
    let misses = generate_transfers(&mut m, &vec![], 100, 785, 120, None, TransfersMode::All,
        &rules).unwrap();
    assert!(m.transfers.is_empty());
    assert_eq!(misses.len(), 2);
    let mut keys: Vec<(String, String)> = misses
        .iter()
        .map(|x| (x.from_id.clone(), x.to_id.clone()))
        .collect();
    keys.sort();
    assert_eq!(
        keys,
        vec![("A".to_string(), "B".to_string()), ("B".to_string(), "A".to_string())]
    );
}

#[test]
fn force_oneway_touches_a_single_direction() {
    let mut m = model_of(vec![stop("A", "c"), stop("B", "c")]);
    let rules = rules_of(&["A,B,force_oneway,40"]);
    generate_transfers(&mut m, &vec![], 100, 785, 120, None, TransfersMode::All, &rules).unwrap();
    assert_eq!(edge_set(&m), vec![("A".to_string(), "B".to_string(), 40)]);
}

#[test]
fn unknown_stop_in_a_rule_aborts_without_mutation() {
    let mut m = model_of(vec![stop("A", "c"), stop("B", "c")]);
    let pairs = vec![pair(0, 1, 30)];
    let rules = rules_of(&["A,MISSING,force,10"]);
    let err = generate_transfers(&mut m, &pairs, 100, 785, 120, None, TransfersMode::All, &rules)
        .unwrap_err();
    assert_eq!(err, TransferError::UnknownEntity("MISSING".to_string()));
    assert!(m.transfers.is_empty());
}

#[test]
fn self_pairs_are_never_generated_but_can_be_forced() {
    let mut m = model_of(vec![stop("A", "c")]);
    let pairs = vec![pair(0, 0, 0)];
    generate_transfers(&mut m, &pairs, 100, 785, 120, None, TransfersMode::All, &vec![]).unwrap();
    assert!(m.transfers.is_empty());
    let rules = rules_of(&["A,A,force,120"]);
    generate_transfers(&mut m, &vec![], 100, 785, 120, None, TransfersMode::All, &rules).unwrap();
    assert_eq!(edge_set(&m), vec![("A".to_string(), "A".to_string(), 120)]);
}

#[test]
fn coincident_stops_get_a_minimal_transfer() {
    let mut m = model_of(vec![stop("A", "c"), stop("B", "c")]);
    let pairs = vec![pair(0, 1, 0)];
    generate_transfers(&mut m, &pairs, 100, 785, 120, None, TransfersMode::All, &vec![]).unwrap();
    assert_eq!(
        edge_set(&m),
        vec![("A".to_string(), "B".to_string(), 0), ("B".to_string(), "A".to_string(), 0)]
    );
}

#[test]
fn existing_transfers_are_passed_through_untouched() {
    let mut m = model_of(vec![stop("A", "c"), stop("B", "c")]);
    m.transfers.push(Transfer {
        from_id: "A".to_string(),
        to_id: "B".to_string(),
        transfer_time: 999,
        walking_time: None,
        distance_m: None,
    });
    let pairs = vec![pair(0, 1, 65)];
    generate_transfers(&mut m, &pairs, 100, 785, 120, None, TransfersMode::All, &vec![]).unwrap();
    assert_eq!(
        edge_set(&m),
        vec![("A".to_string(), "B".to_string(), 999), ("B".to_string(), "A".to_string(), 83)]
    );
}
