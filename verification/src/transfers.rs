//! The transfer generation engine: walking transfers between nearby stop
//! points, computed from pairwise distance and a rule-overridable policy.
//!
//! Geometric generation walks a caller-supplied list of candidate pairs
//! (each with its straight-line distance in meters), keeps the pairs the
//! contributor mode allows and whose distance and derived duration fall
//! under the caps, and emits both directed edges. Existing transfers are
//! passed through untouched. Rule application then runs over the combined
//! table: `force` inserts or replaces edges regardless of distance and
//! mode, `remove` deletes them, `override` retimes edges that exist anyway
//! and is reported when its pair has none.

use vstd::prelude::*;
use crate::kv::{kv_map, kv_unique, kv_has, lemma_kv_dom, lemma_kv_index, lemma_kv_push,
    lemma_kv_push_unique, lemma_kv_remove};
use crate::model::{Model, StopPoint, Transfer, EdgeV, transfer_edge, transfer_entries, transfer_map,
    transfers_unique, find_transfer, stop_exists, has_stop};
use crate::rules::{TransferRule, TransferRuleAction, TransferRuleV, rule_views};

verus! {

/// An ordered stop-point pair, the key of the transfer table.
pub type PairKey = (Seq<char>, Seq<char>);

/// Which stop-point pairs geometric generation may consider: pairs owned by
/// one contributor, pairs owned by two different contributors, or all pairs.
#[derive(Clone, Copy, PartialEq, Eq, Structural, Debug)]
pub enum TransfersMode {
    IntraContributor,
    InterContributor,
    All,
}

/// A candidate unordered pair: two indices into the stop-point table and
/// their straight-line distance in meters.
#[derive(Clone, Copy, PartialEq, Eq, Structural, Debug)]
pub struct PairDist {
    pub a: usize,
    pub b: usize,
    pub distance_m: u64,
}

/// A fatal error of transfer generation; the model is left untouched.
#[derive(Clone, PartialEq, Eq, Debug)]
pub enum TransferError {
    /// A rule names a stop point the model does not hold.
    UnknownEntity(String),
}

/// An `override` rule whose pair had no edge to retime; reported, never
/// silently dropped.
#[derive(Clone, PartialEq, Eq, Debug)]
pub struct OverrideMiss {
    pub from_id: String,
    pub to_id: String,
}

pub open spec fn miss_key(m: OverrideMiss) -> PairKey {
    (m.from_id@, m.to_id@)
}

/// Distances above this cap (well over half the Earth's circumference in
/// meters) are refused up front so that duration arithmetic cannot overflow.
pub const MAX_PAIR_DISTANCE_M: u64 = 40_000_000;

/// Whether the mode lets these two stop points form a geometric pair.
pub open spec fn mode_allows(mode: TransfersMode, x: StopPoint, y: StopPoint) -> bool {
    match mode {
        TransfersMode::IntraContributor => x.contributor_id@ == y.contributor_id@,
        TransfersMode::InterContributor => x.contributor_id@ != y.contributor_id@,
        TransfersMode::All => true,
    }
}

/// Walking seconds for a distance, rounded to the nearest whole second:
/// the distance divided by the effective speed `speed_milli / 1000` meters
/// per second (`speed_milli` is the speed factor in thousandths of the
/// nominal walking speed of one meter per second).
pub open spec fn walk_seconds(distance_m: u64, speed_milli: u32) -> int {
    (distance_m as int * 1000 + speed_milli as int / 2) / (speed_milli as int)
}

pub open spec fn waiting_val(waiting_time: Option<u32>) -> int {
    match waiting_time {
        Some(w) => w as int,
        None => 0,
    }
}

/// Full duration of a geometric transfer: walking time plus the fixed
/// platform-to-platform waiting overhead.
pub open spec fn total_seconds(distance_m: u64, speed_milli: u32, waiting_time: Option<u32>) -> int {
    walk_seconds(distance_m, speed_milli) + waiting_val(waiting_time)
}

/// Whether a candidate pair yields geometric transfers.
pub open spec fn pair_qualifies(
    sps: Seq<StopPoint>,
    p: PairDist,
    max_distance: u64,
    speed_milli: u32,
    max_duration: u32,
    waiting_time: Option<u32>,
    mode: TransfersMode,
) -> bool {
    &&& p.a < sps.len()
    &&& p.b < sps.len()
    &&& p.a != p.b
    &&& mode_allows(mode, sps[p.a as int], sps[p.b as int])
    &&& p.distance_m <= max_distance
    &&& total_seconds(p.distance_m, speed_milli, waiting_time) <= max_duration
}

/// The edge a qualifying pair yields, in both directions.
pub open spec fn geo_edge(p: PairDist, speed_milli: u32, waiting_time: Option<u32>) -> EdgeV {
    EdgeV {
        transfer_time: total_seconds(p.distance_m, speed_milli, waiting_time) as u32,
        walking_time: Some(walk_seconds(p.distance_m, speed_milli) as u32),
        distance_m: Some(p.distance_m),
    }
}

/// The geometric edge set: both directed edges of every qualifying pair,
/// the first qualifying candidate of a pair winning over later duplicates.
pub open spec fn geo_map(
    sps: Seq<StopPoint>,
    pds: Seq<PairDist>,
    max_distance: u64,
    speed_milli: u32,
    max_duration: u32,
    waiting_time: Option<u32>,
    mode: TransfersMode,
) -> Map<PairKey, EdgeV>
    decreases pds.len(),
{
    if pds.len() == 0 {
        Map::empty()
    } else {
        let prev = geo_map(
            sps,
            pds.drop_last(),
            max_distance,
            speed_milli,
            max_duration,
            waiting_time,
            mode,
        );
        let p = pds.last();
        if pair_qualifies(sps, p, max_distance, speed_milli, max_duration, waiting_time, mode) {
            let k1 = (sps[p.a as int].id@, sps[p.b as int].id@);
            let k2 = (sps[p.b as int].id@, sps[p.a as int].id@);
            let e = geo_edge(p, speed_milli, waiting_time);
            let m1 = if prev.contains_key(k1) {
                prev
            } else {
                prev.insert(k1, e)
            };
            if m1.contains_key(k2) {
                m1
            } else {
                m1.insert(k2, e)
            }
        } else {
            prev
        }
    }
}

/// One resolved, directed rule step.
#[derive(Clone, Copy, PartialEq, Eq, Structural, Debug)]
pub enum RuleStep {
    Force(u32),
    Remove,
    Override(u32),
}

/// A directed rule step with its ordered pair.
#[derive(Clone, Debug)]
pub struct ResolvedRule {
    pub from_id: String,
    pub to_id: String,
    pub step: RuleStep,
}

pub open spec fn resolved_entries(s: Seq<ResolvedRule>) -> Seq<(PairKey, RuleStep)> {
    s.map_values(|r: ResolvedRule| ((r.from_id@, r.to_id@), r.step))
}

/// The directed steps one parsed rule stands for: pair-level actions touch
/// both directions, `force_oneway` only its own.
pub open spec fn expand_rule(r: TransferRuleV) -> Seq<(PairKey, RuleStep)> {
    match r.action {
        TransferRuleAction::Force(d) => seq![
            ((r.from, r.to), RuleStep::Force(d)),
            ((r.to, r.from), RuleStep::Force(d)),
        ],
        TransferRuleAction::ForceOneWay(d) => seq![((r.from, r.to), RuleStep::Force(d))],
        TransferRuleAction::Remove => seq![
            ((r.from, r.to), RuleStep::Remove),
            ((r.to, r.from), RuleStep::Remove),
        ],
        TransferRuleAction::Override(d) => seq![
            ((r.from, r.to), RuleStep::Override(d)),
            ((r.to, r.from), RuleStep::Override(d)),
        ],
    }
}

pub open spec fn expand_rules(rs: Seq<TransferRuleV>) -> Seq<(PairKey, RuleStep)>
    decreases rs.len(),
{
    if rs.len() == 0 {
        Seq::empty()
    } else {
        expand_rules(rs.drop_last()).add(expand_rule(rs.last()))
    }
}

/// Last-write-wins over the directed steps: of several steps with one key,
/// the latest in file-then-line order is the one that acts.
pub open spec fn rule_map(s: Seq<(PairKey, RuleStep)>) -> Map<PairKey, RuleStep>
    decreases s.len(),
{
    if s.len() == 0 {
        Map::empty()
    } else {
        let rest = rule_map(s.drop_first());
        if rest.contains_key(s[0].0) {
            rest
        } else {
            rest.insert(s[0].0, s[0].1)
        }
    }
}

/// What a list of parsed rules does, as a keyed mapping.
pub open spec fn rules_effect(rs: Seq<TransferRuleV>) -> Map<PairKey, RuleStep> {
    rule_map(expand_rules(rs))
}

/// The edge a forced rule writes: only the duration is known.
pub open spec fn forced_edge(d: u32) -> EdgeV {
    EdgeV { transfer_time: d, walking_time: None, distance_m: None }
}

/// The same edge with only its duration changed.
pub open spec fn retimed(e: EdgeV, d: u32) -> EdgeV {
    EdgeV { transfer_time: d, walking_time: e.walking_time, distance_m: e.distance_m }
}

pub open spec fn rule_keeps(t: Map<PairKey, EdgeV>, r: Map<PairKey, RuleStep>, k: PairKey) -> bool {
    if r.contains_key(k) {
        match r[k] {
            RuleStep::Force(_) => true,
            RuleStep::Remove => false,
            RuleStep::Override(_) => t.contains_key(k),
        }
    } else {
        t.contains_key(k)
    }
}

pub open spec fn rule_value(t: Map<PairKey, EdgeV>, r: Map<PairKey, RuleStep>, k: PairKey) -> EdgeV {
    if r.contains_key(k) {
        match r[k] {
            RuleStep::Force(d) => forced_edge(d),
            RuleStep::Remove => forced_edge(0),
            RuleStep::Override(d) => retimed(t[k], d),
        }
    } else {
        t[k]
    }
}

/// The transfer table after rule application: pointwise over keys, each key
/// governed by its own rule step if any.
pub open spec fn applied(t: Map<PairKey, EdgeV>, r: Map<PairKey, RuleStep>) -> Map<PairKey, EdgeV> {
    Map::new(|k: PairKey| rule_keeps(t, r, k), |k: PairKey| rule_value(t, r, k))
}

pub proof fn lemma_applied_empty(t: Map<PairKey, EdgeV>)
    ensures
        applied(t, Map::empty()) == t,
{
    assert(applied(t, Map::<PairKey, RuleStep>::empty()) =~= t);
}

pub proof fn lemma_applied_insert(
    t: Map<PairKey, EdgeV>,
    r: Map<PairKey, RuleStep>,
    k: PairKey,
    a: RuleStep,
)
    requires
        !r.contains_key(k),
    ensures
        a is Force ==> applied(t, r.insert(k, a)) == applied(t, r).insert(
            k,
            forced_edge(a->Force_0),
        ),
        a is Remove ==> applied(t, r.insert(k, a)) == applied(t, r).remove(k),
        a is Override && t.contains_key(k) ==> applied(t, r.insert(k, a)) == applied(t, r).insert(
            k,
            retimed(t[k], a->Override_0),
        ),
        a is Override && !t.contains_key(k) ==> applied(t, r.insert(k, a)) == applied(t, r),
{
    match a {
        RuleStep::Force(d) => {
            assert(applied(t, r.insert(k, a)) =~= applied(t, r).insert(k, forced_edge(d)));
        },
        RuleStep::Remove => {
            assert(applied(t, r.insert(k, a)) =~= applied(t, r).remove(k));
        },
        RuleStep::Override(d) => {
            if t.contains_key(k) {
                assert(applied(t, r.insert(k, a)) =~= applied(t, r).insert(k, retimed(t[k], d)));
            } else {
                assert(applied(t, r.insert(k, a)) =~= applied(t, r));
            }
        },
    }
}

/// Expand parsed rules into directed steps, then resolve key collisions
/// last-write-wins, so that the result holds one step per directed pair.
#[verifier::loop_isolation(false)]
pub fn resolve_transfer_rules(rules: &Vec<TransferRule>) -> (r: Vec<ResolvedRule>)
    ensures
        kv_unique(resolved_entries(r@)),
        kv_map(resolved_entries(r@)) == rules_effect(rule_views(rules@)),
{
    let mut expanded: Vec<ResolvedRule> = Vec::new();
    let nr: usize = rules.len();
    let mut i: usize = 0;
    proof {
        assert(rule_views(rules@.take(0)) =~= Seq::<TransferRuleV>::empty());
        assert(resolved_entries(expanded@) =~= expand_rules(rule_views(rules@.take(0))));
    }
    while i < nr
        invariant
            i <= nr,
            resolved_entries(expanded@) == expand_rules(rule_views(rules@.take(i as int))),
        decreases nr - i,
    {
        let rl = &rules[i];
        let ghost rv = crate::rules::transfer_rule_view(rules@[i as int]);
        proof {
            assert(rule_views(rules@.take(i as int + 1)).drop_last() =~= rule_views(
                rules@.take(i as int)));
            assert(rule_views(rules@.take(i as int + 1)).last() == rv);
        }
        match rl.action {
            TransferRuleAction::Force(d) => {
                expanded.push(ResolvedRule {
                    from_id: rl.from_id.clone(),
                    to_id: rl.to_id.clone(),
                    step: RuleStep::Force(d),
                });
                expanded.push(ResolvedRule {
                    from_id: rl.to_id.clone(),
                    to_id: rl.from_id.clone(),
                    step: RuleStep::Force(d),
                });
            },
            TransferRuleAction::ForceOneWay(d) => {
                expanded.push(ResolvedRule {
                    from_id: rl.from_id.clone(),
                    to_id: rl.to_id.clone(),
                    step: RuleStep::Force(d),
                });
            },
            TransferRuleAction::Remove => {
                expanded.push(ResolvedRule {
                    from_id: rl.from_id.clone(),
                    to_id: rl.to_id.clone(),
                    step: RuleStep::Remove,
                });
                expanded.push(ResolvedRule {
                    from_id: rl.to_id.clone(),
                    to_id: rl.from_id.clone(),
                    step: RuleStep::Remove,
                });
            },
            TransferRuleAction::Override(d) => {
                expanded.push(ResolvedRule {
                    from_id: rl.from_id.clone(),
                    to_id: rl.to_id.clone(),
                    step: RuleStep::Override(d),
                });
                expanded.push(ResolvedRule {
                    from_id: rl.to_id.clone(),
                    to_id: rl.from_id.clone(),
                    step: RuleStep::Override(d),
                });
            },
        }
        proof {
            assert(resolved_entries(expanded@) =~= expand_rules(
                rule_views(rules@.take(i as int + 1))));
        }
        i = i + 1;
    }
    proof {
        assert(rules@.take(nr as int) =~= rules@);
    }
    let ghost ev = resolved_entries(expanded@);
    let mut out: Vec<ResolvedRule> = Vec::new();
    let ne: usize = expanded.len();
    let mut j: usize = ne;
    proof {
        assert(ev.skip(ne as int) =~= Seq::<(PairKey, RuleStep)>::empty());
    }
    while j > 0
        invariant
            j <= ne,
            kv_unique(resolved_entries(out@)),
            kv_map(resolved_entries(out@)) == rule_map(ev.skip(j as int)),
        decreases j,
    {
        j = j - 1;
        let e = &expanded[j];
        let ghost k = (expanded@[j as int].from_id@, expanded@[j as int].to_id@);
        proof {
            assert(ev.skip(j as int)[0] == ev[j as int]);
            assert(ev[j as int] == (k, expanded@[j as int].step));
            assert(ev.skip(j as int).drop_first() =~= ev.skip(j as int + 1));
            lemma_kv_dom(resolved_entries(out@));
        }
        let mut found: bool = false;
        let no: usize = out.len();
        let mut m: usize = 0;
        while m < no
            invariant
                m <= no,
                found ==> kv_has(resolved_entries(out@), k),
                !found ==> forall|m2: int|
                    0 <= m2 < m as int ==> (#[trigger] resolved_entries(out@)[m2]).0 != k,
            decreases no - m,
        {
            proof {
                assert(resolved_entries(out@)[m as int] == (
                    (out@[m as int].from_id@, out@[m as int].to_id@),
                    out@[m as int].step,
                ));
            }
            if out[m].from_id == e.from_id && out[m].to_id == e.to_id {
                found = true;
                proof {
                    assert(resolved_entries(out@)[m as int].0 == k);
                }
            }
            m = m + 1;
        }
        if !found {
            proof {
                assert(!kv_has(resolved_entries(out@), k));
                lemma_kv_push_unique(resolved_entries(out@), (k, expanded@[j as int].step));
                lemma_kv_push(resolved_entries(out@), (k, expanded@[j as int].step));
                assert(!kv_map(resolved_entries(out@)).contains_key(k));
            }
            let ghost pre = out@;
            out.push(ResolvedRule {
                from_id: e.from_id.clone(),
                to_id: e.to_id.clone(),
                step: e.step,
            });
            proof {
                assert(resolved_entries(out@) =~= resolved_entries(pre).push(
                    (k, expanded@[j as int].step)));
            }
        } else {
            proof {
                assert(kv_map(resolved_entries(out@)).contains_key(k));
            }
        }
    }
    proof {
        assert(ev.skip(0) =~= ev);
    }
    out
}

/// Add the geometric edges of every qualifying candidate pair to the
/// table; pairs already present — from the supplied model or from an
/// earlier candidate — are passed through untouched.
#[verifier::loop_isolation(false)]
fn add_geometric(
    table: &mut Vec<Transfer>,
    stop_points: &Vec<StopPoint>,
    pair_dists: &Vec<PairDist>,
    max_distance: u64,
    speed_milli: u32,
    max_duration: u32,
    waiting_time: Option<u32>,
    mode: TransfersMode,
)
    requires
        transfers_unique(old(table)@),
        0 < speed_milli <= 1000,
        max_distance <= MAX_PAIR_DISTANCE_M,
        forall|i: int|
            0 <= i < pair_dists@.len() ==> (#[trigger] pair_dists@[i]).a < stop_points@.len()
                && pair_dists@[i].b < stop_points@.len(),
    ensures
        transfers_unique(final(table)@),
        transfer_map(final(table)@) == geo_map(
            stop_points@,
            pair_dists@,
            max_distance,
            speed_milli,
            max_duration,
            waiting_time,
            mode,
        ).union_prefer_right(transfer_map(old(table)@)),
{
    let ghost base = transfer_map(old(table)@);
    let np: usize = pair_dists.len();
    let mut pi: usize = 0;
    proof {
        assert(pair_dists@.take(0) =~= Seq::<PairDist>::empty());
        assert(geo_map(
            stop_points@,
            pair_dists@.take(0),
            max_distance,
            speed_milli,
            max_duration,
            waiting_time,
            mode,
        ).union_prefer_right(base) =~= base);
    }
    while pi < np
        invariant
            pi <= np,
            transfers_unique(table@),
            transfer_map(table@) == geo_map(
                stop_points@,
                pair_dists@.take(pi as int),
                max_distance,
                speed_milli,
                max_duration,
                waiting_time,
                mode,
            ).union_prefer_right(base),
        decreases np - pi,
    {
        let p: PairDist = pair_dists[pi];
        let ghost gm_prev = geo_map(
            stop_points@,
            pair_dists@.take(pi as int),
            max_distance,
            speed_milli,
            max_duration,
            waiting_time,
            mode,
        );
        let ghost gm_next = geo_map(
            stop_points@,
            pair_dists@.take(pi as int + 1),
            max_distance,
            speed_milli,
            max_duration,
            waiting_time,
            mode,
        );
        proof {
            assert(pair_dists@.take(pi as int + 1).drop_last() =~= pair_dists@.take(pi as int));
            assert(pair_dists@.take(pi as int + 1).last() == p);
            assert(pair_dists@[pi as int] == p);
        }
        let qualifies: bool = p.a != p.b && p.distance_m <= max_distance && (match mode {
            TransfersMode::IntraContributor => stop_points[p.a].contributor_id
                == stop_points[p.b].contributor_id,
            TransfersMode::InterContributor => !(stop_points[p.a].contributor_id
                == stop_points[p.b].contributor_id),
            TransfersMode::All => true,
        });
        if qualifies {
            let walk: u64 = (p.distance_m * 1000 + (speed_milli as u64) / 2)
                / (speed_milli as u64);
            let wait: u64 = match waiting_time {
                Some(w) => w as u64,
                None => 0,
            };
            let total: u64 = walk + wait;
            proof {
                assert(walk as int == walk_seconds(p.distance_m, speed_milli));
                assert(total as int == total_seconds(p.distance_m, speed_milli, waiting_time));
            }
            if total <= max_duration as u64 {
                proof {
                    assert(pair_qualifies(
                        stop_points@,
                        p,
                        max_distance,
                        speed_milli,
                        max_duration,
                        waiting_time,
                        mode,
                    ));
                }
                let tt: u32 = total as u32;
                let wk: u32 = walk as u32;
                let ghost e = geo_edge(p, speed_milli, waiting_time);
                let from: String = stop_points[p.a].id.clone();
                let to: String = stop_points[p.b].id.clone();
                let ghost k1 = (from@, to@);
                let ghost k2 = (to@, from@);
                let ghost m1 = if gm_prev.contains_key(k1) {
                    gm_prev
                } else {
                    gm_prev.insert(k1, e)
                };
                proof {
                    lemma_kv_dom(transfer_entries(table@));
                }
                let ghost pre1 = table@;
                match find_transfer(table, &from, &to) {
                    None => {
                        proof {
                            assert(!kv_has(transfer_entries(pre1), k1));
                            assert(!transfer_map(pre1).contains_key(k1));
                            assert(!gm_prev.contains_key(k1) && !base.contains_key(k1));
                            lemma_kv_push_unique(transfer_entries(pre1), (k1, e));
                            lemma_kv_push(transfer_entries(pre1), (k1, e));
                        }
                        let t1 = Transfer {
                            from_id: from.clone(),
                            to_id: to.clone(),
                            transfer_time: tt,
                            walking_time: Some(wk),
                            distance_m: Some(p.distance_m),
                        };
                        table.push(t1);
                        proof {
                            assert(transfer_entries(table@) =~= transfer_entries(pre1).push(
                                (k1, e)));
                            assert(transfers_unique(table@));
                            assert(transfer_map(table@) =~= m1.union_prefer_right(base));
                        }
                    },
                    Some(x) => {
                        proof {
                            assert(transfer_entries(pre1)[x as int] == (
                                (pre1[x as int].from_id@, pre1[x as int].to_id@),
                                transfer_edge(pre1[x as int]),
                            ));
                            assert(transfer_entries(pre1)[x as int].0 == k1);
                            assert(kv_has(transfer_entries(pre1), k1));
                            assert(transfer_map(table@).contains_key(k1));
                            assert(m1.union_prefer_right(base) =~= gm_prev.union_prefer_right(
                                base));
                        }
                    },
                }
                proof {
                    assert(transfer_map(table@) == m1.union_prefer_right(base));
                    lemma_kv_dom(transfer_entries(table@));
                }
                let ghost pre2 = table@;
                match find_transfer(table, &to, &from) {
                    None => {
                        proof {
                            assert(!kv_has(transfer_entries(pre2), k2));
                            assert(!transfer_map(pre2).contains_key(k2));
                            assert(!m1.contains_key(k2) && !base.contains_key(k2));
                            lemma_kv_push_unique(transfer_entries(pre2), (k2, e));
                            lemma_kv_push(transfer_entries(pre2), (k2, e));
                        }
                        let t2 = Transfer {
                            from_id: to,
                            to_id: from,
                            transfer_time: tt,
                            walking_time: Some(wk),
                            distance_m: Some(p.distance_m),
                        };
                        table.push(t2);
                        proof {
                            assert(transfer_entries(table@) =~= transfer_entries(pre2).push(
                                (k2, e)));
                            assert(transfers_unique(table@));
                            assert(transfer_map(table@) =~= gm_next.union_prefer_right(base));
                        }
                    },
                    Some(x) => {
                        proof {
                            assert(transfer_entries(pre2)[x as int] == (
                                (pre2[x as int].from_id@, pre2[x as int].to_id@),
                                transfer_edge(pre2[x as int]),
                            ));
                            assert(transfer_entries(pre2)[x as int].0 == k2);
                            assert(kv_has(transfer_entries(pre2), k2));
                            assert(transfer_map(table@).contains_key(k2));
                            assert(gm_next.union_prefer_right(base) =~= m1.union_prefer_right(
                                base));
                        }
                    },
                }
            } else {
                proof {
                    assert(!pair_qualifies(
                        stop_points@,
                        p,
                        max_distance,
                        speed_milli,
                        max_duration,
                        waiting_time,
                        mode,
                    ));
                    assert(gm_next == gm_prev);
                }
            }
        } else {
            proof {
                assert(!pair_qualifies(
                    stop_points@,
                    p,
                    max_distance,
                    speed_milli,
                    max_duration,
                    waiting_time,
                    mode,
                ));
                assert(gm_next == gm_prev);
            }
        }
        pi = pi + 1;
    }
    proof {
        assert(pair_dists@.take(np as int) =~= pair_dists@);
    }
}

/// Apply one resolved, deduplicated rule step per directed pair to the
/// table; returns the `override` steps whose pair had no edge.
#[verifier::loop_isolation(false)]
fn apply_rule_steps(table: &mut Vec<Transfer>, resolved: &Vec<ResolvedRule>) -> (misses: Vec<
    OverrideMiss,
>)
    requires
        transfers_unique(old(table)@),
        kv_unique(resolved_entries(resolved@)),
    ensures
        transfers_unique(final(table)@),
        transfer_map(final(table)@) == applied(
            transfer_map(old(table)@),
            kv_map(resolved_entries(resolved@)),
        ),
        forall|x: int|
            0 <= x < misses@.len() ==> {
                let k = miss_key(#[trigger] misses@[x]);
                &&& kv_map(resolved_entries(resolved@)).contains_key(k)
                &&& kv_map(resolved_entries(resolved@))[k] is Override
                &&& !transfer_map(old(table)@).contains_key(k)
            },
        forall|k: PairKey|
            kv_map(resolved_entries(resolved@)).contains_key(k) && kv_map(
                resolved_entries(resolved@),
            )[k] is Override && !transfer_map(old(table)@).contains_key(k) ==> exists|x: int|
                0 <= x < misses@.len() && miss_key(#[trigger] misses@[x]) == k,
{
    let ghost base = transfer_map(old(table)@);
    let ghost rv = resolved_entries(resolved@);
    let mut misses: Vec<OverrideMiss> = Vec::new();
    let nr: usize = resolved.len();
    let mut i: usize = 0;
    proof {
        assert(rv.take(0) =~= Seq::<(PairKey, RuleStep)>::empty());
        lemma_applied_empty(base);
    }
    while i < nr
        invariant
            i <= nr,
            transfers_unique(table@),
            transfer_map(table@) == applied(base, kv_map(rv.take(i as int))),
            forall|x: int|
                0 <= x < misses@.len() ==> {
                    let k = miss_key(#[trigger] misses@[x]);
                    &&& kv_map(rv.take(i as int)).contains_key(k)
                    &&& kv_map(rv.take(i as int))[k] is Override
                    &&& !base.contains_key(k)
                },
            forall|k: PairKey|
                kv_map(rv.take(i as int)).contains_key(k) && kv_map(rv.take(i as int))[k]
                    is Override && !base.contains_key(k) ==> exists|x: int|
                    0 <= x < misses@.len() && miss_key(#[trigger] misses@[x]) == k,
        decreases nr - i,
    {
        let step = resolved[i].step;
        let ghost k = (resolved@[i as int].from_id@, resolved@[i as int].to_id@);
        let ghost pmap = kv_map(rv.take(i as int));
        let ghost mold = misses@;
        proof {
            assert(rv.take(i as int + 1).drop_last() =~= rv.take(i as int));
            assert(rv[i as int] == (
                (resolved@[i as int].from_id@, resolved@[i as int].to_id@),
                resolved@[i as int].step,
            ));
            assert(rv.take(i as int + 1).last() == rv[i as int]);
            assert(!pmap.contains_key(k)) by {
                lemma_kv_dom(rv.take(i as int));
                if kv_has(rv.take(i as int), k) {
                    let x = choose|x: int| 0 <= x < i as int && rv.take(i as int)[x].0 == k;
                    assert(rv[x].0 == rv[i as int].0);
                }
            }
            assert(kv_map(rv.take(i as int + 1)) == pmap.insert(k, step));
            lemma_applied_insert(base, pmap, k, step);
            lemma_kv_dom(transfer_entries(table@));
        }
        let ghost pre = table@;
        let found = find_transfer(table, &resolved[i].from_id, &resolved[i].to_id);
        proof {
            match found {
                Some(x) => {
                    assert(transfer_entries(pre)[x as int] == (
                        (pre[x as int].from_id@, pre[x as int].to_id@),
                        transfer_edge(pre[x as int]),
                    ));
                    assert(transfer_entries(pre)[x as int].0 == k);
                    assert(kv_has(transfer_entries(pre), k));
                    assert(transfer_map(pre).contains_key(k));
                },
                None => {
                    assert(!kv_has(transfer_entries(pre), k));
                    assert(!transfer_map(pre).contains_key(k));
                },
            }
            assert(transfer_map(pre).contains_key(k) == base.contains_key(k));
        }
        match step {
            RuleStep::Force(d) => {
                match found {
                    Some(x) => {
                        proof {
                            lemma_kv_remove(transfer_entries(pre), x as int);
                        }
                        table.remove(x);
                        proof {
                            assert(transfer_entries(table@) =~= transfer_entries(pre).remove(
                                x as int));
                            assert(transfer_map(table@) == transfer_map(pre).remove(k));
                        }
                    },
                    None => {},
                }
                let ghost mid = table@;
                proof {
                    assert(transfers_unique(mid));
                    assert(!transfer_map(mid).contains_key(k));
                    lemma_kv_dom(transfer_entries(mid));
                    assert(!kv_has(transfer_entries(mid), k));
                    lemma_kv_push_unique(transfer_entries(mid), (k, forced_edge(d)));
                    lemma_kv_push(transfer_entries(mid), (k, forced_edge(d)));
                }
                let t = Transfer {
                    from_id: resolved[i].from_id.clone(),
                    to_id: resolved[i].to_id.clone(),
                    transfer_time: d,
                    walking_time: None,
                    distance_m: None,
                };
                table.push(t);
                proof {
                    assert(transfer_entries(table@) =~= transfer_entries(mid).push(
                        (k, forced_edge(d))));
                    assert(transfers_unique(table@));
                    assert(transfer_map(table@) =~= applied(base, pmap).insert(
                        k,
                        forced_edge(d)));
                }
            },
            RuleStep::Remove => {
                match found {
                    Some(x) => {
                        proof {
                            lemma_kv_remove(transfer_entries(pre), x as int);
                        }
                        table.remove(x);
                        proof {
                            assert(transfer_entries(table@) =~= transfer_entries(pre).remove(
                                x as int));
                            assert(transfer_map(table@) == applied(base, pmap).remove(k));
                        }
                    },
                    None => {
                        proof {
                            assert(transfer_map(table@) =~= applied(base, pmap).remove(k));
                        }
                    },
                }
            },
            RuleStep::Override(d) => {
                match found {
                    Some(x) => {
                        let wlk = table[x].walking_time;
                        let dst = table[x].distance_m;
                        proof {
                            lemma_kv_index(transfer_entries(pre), x as int);
                            assert(transfer_map(pre)[k] == transfer_entries(pre)[x as int].1);
                            assert(transfer_map(pre)[k] == base[k]);
                            assert(transfer_edge(pre[x as int]) == base[k]);
                            lemma_kv_remove(transfer_entries(pre), x as int);
                        }
                        table.remove(x);
                        let ghost mid = table@;
                        proof {
                            assert(transfer_entries(mid) =~= transfer_entries(pre).remove(
                                x as int));
                            assert(transfers_unique(mid));
                            assert(!transfer_map(mid).contains_key(k));
                            lemma_kv_dom(transfer_entries(mid));
                            assert(!kv_has(transfer_entries(mid), k));
                            lemma_kv_push_unique(transfer_entries(mid), (k, retimed(base[k], d)));
                            lemma_kv_push(transfer_entries(mid), (k, retimed(base[k], d)));
                        }
                        let t = Transfer {
                            from_id: resolved[i].from_id.clone(),
                            to_id: resolved[i].to_id.clone(),
                            transfer_time: d,
                            walking_time: wlk,
                            distance_m: dst,
                        };
                        table.push(t);
                        proof {
                            assert(transfer_edge(t) == retimed(base[k], d));
                            assert(transfer_entries(table@) =~= transfer_entries(mid).push(
                                (k, retimed(base[k], d))));
                            assert(transfers_unique(table@));
                            assert(transfer_map(table@) =~= applied(base, pmap).insert(
                                k,
                                retimed(base[k], d)));
                        }
                    },
                    None => {
                        misses.push(OverrideMiss {
                            from_id: resolved[i].from_id.clone(),
                            to_id: resolved[i].to_id.clone(),
                        });
                        proof {
                            assert(misses@ == mold.push(misses@.last()));
                            assert(miss_key(misses@.last()) == k);
                        }
                    },
                }
            },
        }
        proof {
            assert(transfer_map(table@) == applied(base, kv_map(rv.take(i as int + 1))));
            assert forall|x: int| 0 <= x < misses@.len() implies {
                let k3 = miss_key(#[trigger] misses@[x]);
                &&& kv_map(rv.take(i as int + 1)).contains_key(k3)
                &&& kv_map(rv.take(i as int + 1))[k3] is Override
                &&& !base.contains_key(k3)
            } by {
                if x < mold.len() {
                    assert(misses@[x] == mold[x]);
                    let k3 = miss_key(mold[x]);
                    assert(pmap.contains_key(k3) && pmap[k3] is Override
                        && !base.contains_key(k3));
                    assert(k3 != k);
                } else {
                    assert(miss_key(misses@[x]) == k);
                }
            }
            assert forall|k2: PairKey|
                kv_map(rv.take(i as int + 1)).contains_key(k2) && kv_map(
                    rv.take(i as int + 1),
                )[k2] is Override && !base.contains_key(k2) implies exists|x: int|
                0 <= x < misses@.len() && miss_key(#[trigger] misses@[x]) == k2 by {
                if k2 == k {
                    assert(step is Override && !base.contains_key(k));
                    assert(miss_key(misses@[misses@.len() - 1]) == k2);
                } else {
                    assert(pmap.contains_key(k2) && pmap[k2] is Override
                        && !base.contains_key(k2));
                    let x = choose|x: int|
                        0 <= x < mold.len() && miss_key(#[trigger] mold[x]) == k2;
                    assert(misses@[x] == mold[x]);
                    assert(miss_key(misses@[x]) == k2);
                }
            }
        }
        i = i + 1;
    }
    proof {
        assert(rv.take(nr as int) =~= rv);
    }
    misses
}

/// Generate walking transfers.
///
/// Geometric generation considers the supplied candidate pairs (indices
/// into the stop-point table with their straight-line distance in meters,
/// as produced by the caller's spatial pruning; dropping pairs farther than
/// `max_distance` never changes the result), keeps those the mode allows
/// whose distance is at most `max_distance` and whose duration — distance
/// divided by `speed_milli / 1000` meters per second, nearest-rounded, plus
/// the optional waiting time — is at most `max_duration`, and writes both
/// directed edges. Transfers already in the model are passed through.
/// Parsed rules then act on the combined table, later rules winning over
/// earlier ones on the same directed pair.
///
/// A rule naming a stop point absent from the model is a configuration
/// bug: the run fails with `UnknownEntity` and the model is not mutated.
/// On success the returned list reports every `override` rule whose pair
/// had no edge to retime.
#[verifier::loop_isolation(false)]
pub fn generate_transfers(
    model: &mut Model,
    pair_dists: &Vec<PairDist>,
    max_distance: u64,
    speed_milli: u32,
    max_duration: u32,
    waiting_time: Option<u32>,
    mode: TransfersMode,
    rules: &Vec<TransferRule>,
) -> (r: Result<Vec<OverrideMiss>, TransferError>)
    requires
        old(model).wf(),
        0 < max_distance <= MAX_PAIR_DISTANCE_M,
        0 < speed_milli <= 1000,
        max_duration > 0,
        forall|i: int|
            0 <= i < pair_dists@.len() ==> (#[trigger] pair_dists@[i]).a
                < old(model).stop_points@.len() && pair_dists@[i].b
                < old(model).stop_points@.len(),
    ensures
        final(model).wf(),
        final(model).same_base(*old(model)),
        final(model).object_codes == old(model).object_codes,
        match r {
            Ok(misses) => {
                let combined = geo_map(
                    old(model).stop_points@,
                    pair_dists@,
                    max_distance,
                    speed_milli,
                    max_duration,
                    waiting_time,
                    mode,
                ).union_prefer_right(transfer_map(old(model).transfers@));
                let effect = rules_effect(rule_views(rules@));
                &&& forall|i: int|
                    0 <= i < rules@.len() ==> has_stop(
                        old(model).stop_points@,
                        (#[trigger] rules@[i]).from_id@,
                    ) && has_stop(old(model).stop_points@, rules@[i].to_id@)
                &&& transfer_map(final(model).transfers@) == applied(combined, effect)
                &&& forall|x: int|
                    0 <= x < misses@.len() ==> {
                        let k = miss_key(#[trigger] misses@[x]);
                        &&& effect.contains_key(k)
                        &&& effect[k] is Override
                        &&& !combined.contains_key(k)
                    }
                &&& forall|k: PairKey|
                    effect.contains_key(k) && effect[k] is Override && !combined.contains_key(k)
                        ==> exists|x: int|
                        0 <= x < misses@.len() && miss_key(#[trigger] misses@[x]) == k
            },
            Err(e) => {
                &&& final(model).transfers == old(model).transfers
                &&& match e {
                    TransferError::UnknownEntity(id) => {
                        &&& !has_stop(old(model).stop_points@, id@)
                        &&& exists|i: int|
                            0 <= i < rules@.len() && ((#[trigger] rules@[i]).from_id@ == id@
                                || rules@[i].to_id@ == id@)
                    },
                }
            },
        },
{
    let nr: usize = rules.len();
    let mut ri: usize = 0;
    while ri < nr
        invariant
            ri <= nr,
            model == old(model),
            forall|i: int|
                0 <= i < ri as int ==> has_stop(
                    old(model).stop_points@,
                    (#[trigger] rules@[i]).from_id@,
                ) && has_stop(old(model).stop_points@, rules@[i].to_id@),
        decreases nr - ri,
    {
        if !stop_exists(&model.stop_points, &rules[ri].from_id) {
            return Err(TransferError::UnknownEntity(rules[ri].from_id.clone()));
        }
        if !stop_exists(&model.stop_points, &rules[ri].to_id) {
            return Err(TransferError::UnknownEntity(rules[ri].to_id.clone()));
        }
        ri = ri + 1;
    }
    add_geometric(
        &mut model.transfers,
        &model.stop_points,
        pair_dists,
        max_distance,
        speed_milli,
        max_duration,
        waiting_time,
        mode,
    );
    let resolved = resolve_transfer_rules(rules);
    let misses = apply_rule_steps(&mut model.transfers, &resolved);
    Ok(misses)
}

} // verus!
