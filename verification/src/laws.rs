//! Laws of the transfer generation engine, stated and proved over the same
//! spec functions its contracts use: the geometric edge set `geo_map`, the
//! combined table (geometric edges under pass-through of existing
//! transfers), and pointwise rule application `applied`.

use vstd::prelude::*;
use crate::model::{StopPoint, EdgeV};
use crate::rules::TransferRuleV;
use crate::transfers::{PairKey, PairDist, TransfersMode, RuleStep, geo_map, pair_qualifies,
    geo_edge, total_seconds, walk_seconds, applied, rule_keeps, rule_value, rules_effect,
    rule_map, expand_rules, forced_edge, retimed};
use vstd::arithmetic::div_mod::lemma_div_pos_is_pos;

verus! {

pub open spec fn distinct_ids(sps: Seq<StopPoint>) -> bool {
    forall|i: int, j: int| 0 <= i < j < sps.len() ==> sps[i].id@ != sps[j].id@
}

/// The geometric edge set is symmetric: whenever it holds a directed edge,
/// it holds the opposite one with the same value.
pub proof fn lemma_geo_symmetric(
    sps: Seq<StopPoint>,
    pds: Seq<PairDist>,
    max_distance: u64,
    speed_milli: u32,
    max_duration: u32,
    waiting_time: Option<u32>,
    mode: TransfersMode,
)
    requires
        distinct_ids(sps),
    ensures
        forall|a: Seq<char>, b: Seq<char>|
            #[trigger] geo_map(sps, pds, max_distance, speed_milli, max_duration, waiting_time,
                mode).contains_key((a, b)) ==> geo_map(sps, pds, max_distance, speed_milli,
                max_duration, waiting_time, mode).contains_key((b, a)) && geo_map(sps, pds,
                max_distance, speed_milli, max_duration, waiting_time, mode)[(a, b)] == geo_map(
                sps, pds, max_distance, speed_milli, max_duration, waiting_time, mode)[(b, a)],
    decreases pds.len(),
{
    if pds.len() > 0 {
        lemma_geo_symmetric(
            sps,
            pds.drop_last(),
            max_distance,
            speed_milli,
            max_duration,
            waiting_time,
            mode,
        );
        let prev = geo_map(
            sps,
            pds.drop_last(),
            max_distance,
            speed_milli,
            max_duration,
            waiting_time,
            mode,
        );
        let cur = geo_map(sps, pds, max_distance, speed_milli, max_duration, waiting_time, mode);
        let p = pds.last();
        if pair_qualifies(sps, p, max_distance, speed_milli, max_duration, waiting_time, mode) {
            let ida = sps[p.a as int].id@;
            let idb = sps[p.b as int].id@;
            assert(ida != idb) by {
                if p.a < p.b {
                    assert(sps[p.a as int].id@ != sps[p.b as int].id@);
                } else {
                    assert(sps[p.b as int].id@ != sps[p.a as int].id@);
                }
            }
            assert forall|a: Seq<char>, b: Seq<char>| #[trigger] cur.contains_key((a, b))
                implies cur.contains_key((b, a)) && cur[(a, b)] == cur[(b, a)] by {
                if (a, b) == (ida, idb) || (a, b) == (idb, ida) {
                    if prev.contains_key((ida, idb)) {
                        assert(prev.contains_key((idb, ida)));
                    }
                } else {
                    assert(prev.contains_key((a, b)));
                }
            }
        }
    }
}

/// Symmetry of generated transfers: a geometrically generated pair with no
/// rule override and no pre-existing edge in either direction yields both
/// directed transfers, with equal durations.
pub proof fn theorem_symmetry(
    sps: Seq<StopPoint>,
    pds: Seq<PairDist>,
    max_distance: u64,
    speed_milli: u32,
    max_duration: u32,
    waiting_time: Option<u32>,
    mode: TransfersMode,
    t0: Map<PairKey, EdgeV>,
    rs: Seq<TransferRuleV>,
    a: Seq<char>,
    b: Seq<char>,
)
    requires
        distinct_ids(sps),
        geo_map(sps, pds, max_distance, speed_milli, max_duration, waiting_time,
            mode).contains_key((a, b)),
        !rules_effect(rs).contains_key((a, b)),
        !rules_effect(rs).contains_key((b, a)),
        !t0.contains_key((a, b)),
        !t0.contains_key((b, a)),
    ensures
        ({
            let res = applied(
                geo_map(sps, pds, max_distance, speed_milli, max_duration, waiting_time,
                    mode).union_prefer_right(t0),
                rules_effect(rs),
            );
            &&& res.contains_key((a, b))
            &&& res.contains_key((b, a))
            &&& res[(a, b)].transfer_time == res[(b, a)].transfer_time
        }),
{
    lemma_geo_symmetric(sps, pds, max_distance, speed_milli, max_duration, waiting_time, mode);
    let gm = geo_map(sps, pds, max_distance, speed_milli, max_duration, waiting_time, mode);
    assert(gm.contains_key((b, a)) && gm[(a, b)] == gm[(b, a)]);
}

/// Distance monotonicity of the geometric edge set: widening the distance
/// cap only adds directed edges, it never drops one.
pub proof fn lemma_geo_monotone(
    sps: Seq<StopPoint>,
    pds: Seq<PairDist>,
    d1: u64,
    d2: u64,
    speed_milli: u32,
    max_duration: u32,
    waiting_time: Option<u32>,
    mode: TransfersMode,
)
    requires
        d1 <= d2,
    ensures
        forall|k: PairKey|
            #[trigger] geo_map(sps, pds, d1, speed_milli, max_duration, waiting_time,
                mode).contains_key(k) ==> geo_map(sps, pds, d2, speed_milli, max_duration,
                waiting_time, mode).contains_key(k),
    decreases pds.len(),
{
    if pds.len() > 0 {
        lemma_geo_monotone(
            sps,
            pds.drop_last(),
            d1,
            d2,
            speed_milli,
            max_duration,
            waiting_time,
            mode,
        );
        let g1p = geo_map(sps, pds.drop_last(), d1, speed_milli, max_duration, waiting_time,
            mode);
        let g2p = geo_map(sps, pds.drop_last(), d2, speed_milli, max_duration, waiting_time,
            mode);
        let g1 = geo_map(sps, pds, d1, speed_milli, max_duration, waiting_time, mode);
        let g2 = geo_map(sps, pds, d2, speed_milli, max_duration, waiting_time, mode);
        let p = pds.last();
        assert forall|k: PairKey| #[trigger] g1.contains_key(k) implies g2.contains_key(k) by {
            if g1p.contains_key(k) {
                assert(g2p.contains_key(k));
            } else {
                assert(pair_qualifies(sps, p, d1, speed_milli, max_duration, waiting_time, mode));
                assert(pair_qualifies(sps, p, d2, speed_milli, max_duration, waiting_time, mode));
            }
        }
    }
}

/// Distance monotonicity of the full result: increasing `max_distance`
/// while holding everything else fixed never removes a transfer from the
/// generated table, it only adds.
pub proof fn theorem_distance_monotonicity(
    sps: Seq<StopPoint>,
    pds: Seq<PairDist>,
    d1: u64,
    d2: u64,
    speed_milli: u32,
    max_duration: u32,
    waiting_time: Option<u32>,
    mode: TransfersMode,
    t0: Map<PairKey, EdgeV>,
    rs: Seq<TransferRuleV>,
)
    requires
        d1 <= d2,
    ensures
        forall|k: PairKey|
            #[trigger] applied(
                geo_map(sps, pds, d1, speed_milli, max_duration, waiting_time,
                    mode).union_prefer_right(t0),
                rules_effect(rs),
            ).contains_key(k) ==> applied(
                geo_map(sps, pds, d2, speed_milli, max_duration, waiting_time,
                    mode).union_prefer_right(t0),
                rules_effect(rs),
            ).contains_key(k),
{
    lemma_geo_monotone(sps, pds, d1, d2, speed_milli, max_duration, waiting_time, mode);
    let u1 = geo_map(sps, pds, d1, speed_milli, max_duration, waiting_time,
        mode).union_prefer_right(t0);
    let u2 = geo_map(sps, pds, d2, speed_milli, max_duration, waiting_time,
        mode).union_prefer_right(t0);
    let eff = rules_effect(rs);
    assert forall|k: PairKey| #[trigger] applied(u1, eff).contains_key(k) implies applied(
        u2, eff).contains_key(k) by {
        assert(rule_keeps(u1, eff, k));
        assert(u1.contains_key(k) ==> u2.contains_key(k));
    }
}

/// Every edge of the geometric edge set respects the duration cap.
pub proof fn lemma_geo_duration_cap(
    sps: Seq<StopPoint>,
    pds: Seq<PairDist>,
    max_distance: u64,
    speed_milli: u32,
    max_duration: u32,
    waiting_time: Option<u32>,
    mode: TransfersMode,
)
    requires
        0 < speed_milli,
    ensures
        forall|k: PairKey|
            #[trigger] geo_map(sps, pds, max_distance, speed_milli, max_duration, waiting_time,
                mode).contains_key(k) ==> geo_map(sps, pds, max_distance, speed_milli,
                max_duration, waiting_time, mode)[k].transfer_time <= max_duration,
    decreases pds.len(),
{
    if pds.len() > 0 {
        lemma_geo_duration_cap(
            sps,
            pds.drop_last(),
            max_distance,
            speed_milli,
            max_duration,
            waiting_time,
            mode,
        );
        let p = pds.last();
        if pair_qualifies(sps, p, max_distance, speed_milli, max_duration, waiting_time, mode) {
            lemma_div_pos_is_pos(
                p.distance_m as int * 1000 + speed_milli as int / 2,
                speed_milli as int,
            );
            assert(0 <= walk_seconds(p.distance_m, speed_milli));
            assert(0 <= total_seconds(p.distance_m, speed_milli, waiting_time) <= max_duration);
            assert(geo_edge(p, speed_milli, waiting_time).transfer_time <= max_duration);
        }
    }
}

/// Duration cap: every transfer of the generated table that neither came
/// in with the starting model nor was touched by an explicit rule has
/// `transfer_time <= max_duration`.
pub proof fn theorem_duration_cap(
    sps: Seq<StopPoint>,
    pds: Seq<PairDist>,
    max_distance: u64,
    speed_milli: u32,
    max_duration: u32,
    waiting_time: Option<u32>,
    mode: TransfersMode,
    t0: Map<PairKey, EdgeV>,
    rs: Seq<TransferRuleV>,
    k: PairKey,
)
    requires
        0 < speed_milli,
        !rules_effect(rs).contains_key(k),
        !t0.contains_key(k),
        applied(
            geo_map(sps, pds, max_distance, speed_milli, max_duration, waiting_time,
                mode).union_prefer_right(t0),
            rules_effect(rs),
        ).contains_key(k),
    ensures
        applied(
            geo_map(sps, pds, max_distance, speed_milli, max_duration, waiting_time,
                mode).union_prefer_right(t0),
            rules_effect(rs),
        )[k].transfer_time <= max_duration,
{
    lemma_geo_duration_cap(sps, pds, max_distance, speed_milli, max_duration, waiting_time, mode);
    let gm = geo_map(sps, pds, max_distance, speed_milli, max_duration, waiting_time, mode);
    assert(gm.union_prefer_right(t0)[k] == gm[k]);
}

/// Idempotence: running generation a second time with identical inputs on
/// the table the first run produced yields exactly the same table — no
/// accumulation, no duplicate edges.
pub proof fn theorem_idempotent(
    gm: Map<PairKey, EdgeV>,
    t0: Map<PairKey, EdgeV>,
    eff: Map<PairKey, RuleStep>,
)
    ensures
        applied(
            gm.union_prefer_right(applied(gm.union_prefer_right(t0), eff)),
            eff,
        ) == applied(gm.union_prefer_right(t0), eff),
{
    let u0 = gm.union_prefer_right(t0);
    let t1 = applied(u0, eff);
    let u1 = gm.union_prefer_right(t1);
    assert forall|k: PairKey|
        rule_keeps(u1, eff, k) == rule_keeps(u0, eff, k) && (rule_keeps(u0, eff, k)
            ==> #[trigger] rule_value(u1, eff, k) == rule_value(u0, eff, k)) by {
        if eff.contains_key(k) {
            match eff[k] {
                RuleStep::Force(d) => {},
                RuleStep::Remove => {},
                RuleStep::Override(d) => {
                    if u0.contains_key(k) {
                        assert(t1.contains_key(k));
                        assert(t1[k] == retimed(u0[k], d));
                        assert(u1[k] == t1[k]);
                        assert(retimed(retimed(u0[k], d), d) == retimed(u0[k], d));
                    } else {
                        assert(!t1.contains_key(k));
                        assert(!gm.contains_key(k));
                        assert(!u1.contains_key(k));
                    }
                },
            }
        } else {
            if u0.contains_key(k) {
                assert(t1.contains_key(k));
                assert(t1[k] == u0[k]);
                assert(u1[k] == t1[k]);
            } else {
                assert(!t1.contains_key(k));
                assert(!gm.contains_key(k));
                assert(!u1.contains_key(k));
            }
        }
    }
    assert(applied(u1, eff) =~= applied(u0, eff));
}

/// Where the later of two rule lists has an opinion on a key, the
/// concatenation follows it: the earlier list cannot override the later.
pub proof fn lemma_rule_map_concat(e1: Seq<(PairKey, RuleStep)>, e2: Seq<(PairKey, RuleStep)>)
    ensures
        forall|k: PairKey|
            #[trigger] rule_map(e2).contains_key(k) ==> rule_map(e1.add(e2)).contains_key(k)
                && rule_map(e1.add(e2))[k] == rule_map(e2)[k],
    decreases e1.len(),
{
    if e1.len() == 0 {
        assert(e1.add(e2) =~= e2);
    } else {
        lemma_rule_map_concat(e1.drop_first(), e2);
        assert(e1.add(e2).drop_first() =~= e1.drop_first().add(e2));
        assert(e1.add(e2)[0] == e1[0]);
    }
}

pub proof fn lemma_expand_concat(rs1: Seq<TransferRuleV>, rs2: Seq<TransferRuleV>)
    ensures
        expand_rules(rs1.add(rs2)) == expand_rules(rs1).add(expand_rules(rs2)),
    decreases rs2.len(),
{
    if rs2.len() == 0 {
        assert(rs1.add(rs2) =~= rs1);
        assert(expand_rules(rs2) =~= Seq::<(PairKey, RuleStep)>::empty());
        assert(expand_rules(rs1).add(expand_rules(rs2)) =~= expand_rules(rs1));
    } else {
        lemma_expand_concat(rs1, rs2.drop_last());
        assert(rs1.add(rs2).drop_last() =~= rs1.add(rs2.drop_last()));
        assert(rs1.add(rs2).last() == rs2.last());
        assert(expand_rules(rs1).add(expand_rules(rs2))
            =~= expand_rules(rs1).add(expand_rules(rs2.drop_last())).add(
            crate::transfers::expand_rule(rs2.last())));
    }
}

/// Rule precedence: when a later rule file forces a duration for a
/// directed pair, the generated table carries exactly that duration for
/// the pair, whatever earlier files said and whatever the geometry was.
pub proof fn theorem_rule_precedence(
    t: Map<PairKey, EdgeV>,
    rs1: Seq<TransferRuleV>,
    rs2: Seq<TransferRuleV>,
    k: PairKey,
    d: u32,
)
    requires
        rules_effect(rs2).contains_key(k),
        rules_effect(rs2)[k] == RuleStep::Force(d),
    ensures
        applied(t, rules_effect(rs1.add(rs2))).contains_key(k),
        applied(t, rules_effect(rs1.add(rs2)))[k] == forced_edge(d),
        applied(t, rules_effect(rs1.add(rs2)))[k].transfer_time == d,
{
    lemma_expand_concat(rs1, rs2);
    lemma_rule_map_concat(expand_rules(rs1), expand_rules(rs2));
}

/// Mode filtering: with the same-contributor-only mode, every edge of the
/// geometric edge set joins two stop points of one contributor.
pub proof fn theorem_mode_filtering(
    sps: Seq<StopPoint>,
    pds: Seq<PairDist>,
    max_distance: u64,
    speed_milli: u32,
    max_duration: u32,
    waiting_time: Option<u32>,
)
    ensures
        forall|k: PairKey|
            #[trigger] geo_map(sps, pds, max_distance, speed_milli, max_duration, waiting_time,
                TransfersMode::IntraContributor).contains_key(k) ==> exists|i: int, j: int|
                0 <= i < sps.len() && 0 <= j < sps.len() && (#[trigger] sps[i]).id@ == k.0
                    && (#[trigger] sps[j]).id@ == k.1 && sps[i].contributor_id@
                    == sps[j].contributor_id@,
    decreases pds.len(),
{
    let mode = TransfersMode::IntraContributor;
    if pds.len() > 0 {
        theorem_mode_filtering(
            sps,
            pds.drop_last(),
            max_distance,
            speed_milli,
            max_duration,
            waiting_time,
        );
        let prev = geo_map(
            sps,
            pds.drop_last(),
            max_distance,
            speed_milli,
            max_duration,
            waiting_time,
            mode,
        );
        let cur = geo_map(sps, pds, max_distance, speed_milli, max_duration, waiting_time, mode);
        let p = pds.last();
        assert forall|k: PairKey| #[trigger] cur.contains_key(k) implies exists|i: int, j: int|
            0 <= i < sps.len() && 0 <= j < sps.len() && (#[trigger] sps[i]).id@ == k.0
                && (#[trigger] sps[j]).id@ == k.1 && sps[i].contributor_id@
                == sps[j].contributor_id@ by {
            if pair_qualifies(sps, p, max_distance, speed_milli, max_duration, waiting_time,
                mode) {
                let k1 = (sps[p.a as int].id@, sps[p.b as int].id@);
                let k2 = (sps[p.b as int].id@, sps[p.a as int].id@);
                if k == k1 && !prev.contains_key(k1) {
                    assert(sps[p.a as int].id@ == k.0 && sps[p.b as int].id@ == k.1
                        && sps[p.a as int].contributor_id@ == sps[p.b as int].contributor_id@);
                } else if k == k2 && !prev.contains_key(k2) {
                    assert(sps[p.b as int].id@ == k.0 && sps[p.a as int].id@ == k.1
                        && sps[p.b as int].contributor_id@ == sps[p.a as int].contributor_id@);
                } else {
                    assert(prev.contains_key(k));
                }
            } else {
                assert(prev.contains_key(k));
            }
        }
    }
}

/// Candidates name each unordered stop pair at most once.
pub open spec fn distinct_pairs(pds: Seq<PairDist>) -> bool {
    forall|i: int, j: int|
        0 <= i < j < pds.len() ==> !((pds[i].a == pds[j].a && pds[i].b == pds[j].b) || (pds[i].a
            == pds[j].b && pds[i].b == pds[j].a))
}

/// Every key of the geometric edge set comes from a qualifying candidate,
/// in one direction or the other.
pub proof fn lemma_geo_dom(
    sps: Seq<StopPoint>,
    pds: Seq<PairDist>,
    max_distance: u64,
    speed_milli: u32,
    max_duration: u32,
    waiting_time: Option<u32>,
    mode: TransfersMode,
)
    ensures
        forall|k: PairKey|
            #[trigger] geo_map(sps, pds, max_distance, speed_milli, max_duration, waiting_time,
                mode).contains_key(k) ==> exists|x: int|
                0 <= x < pds.len() && pair_qualifies(sps, #[trigger] pds[x], max_distance,
                    speed_milli, max_duration, waiting_time, mode) && (k == (
                    sps[pds[x].a as int].id@,
                    sps[pds[x].b as int].id@,
                ) || k == (sps[pds[x].b as int].id@, sps[pds[x].a as int].id@)),
    decreases pds.len(),
{
    if pds.len() > 0 {
        lemma_geo_dom(sps, pds.drop_last(), max_distance, speed_milli, max_duration,
            waiting_time, mode);
        let prev = geo_map(sps, pds.drop_last(), max_distance, speed_milli, max_duration,
            waiting_time, mode);
        let cur = geo_map(sps, pds, max_distance, speed_milli, max_duration, waiting_time, mode);
        let p = pds.last();
        assert forall|k: PairKey| #[trigger] cur.contains_key(k) implies exists|x: int|
            0 <= x < pds.len() && pair_qualifies(sps, #[trigger] pds[x], max_distance,
                speed_milli, max_duration, waiting_time, mode) && (k == (
                sps[pds[x].a as int].id@,
                sps[pds[x].b as int].id@,
            ) || k == (sps[pds[x].b as int].id@, sps[pds[x].a as int].id@)) by {
            if prev.contains_key(k) {
                let x = choose|x: int|
                    0 <= x < pds.drop_last().len() && pair_qualifies(sps, #[trigger] pds.drop_last()[x],
                        max_distance, speed_milli, max_duration, waiting_time, mode) && (k == (
                        sps[pds.drop_last()[x].a as int].id@,
                        sps[pds.drop_last()[x].b as int].id@,
                    ) || k == (
                        sps[pds.drop_last()[x].b as int].id@,
                        sps[pds.drop_last()[x].a as int].id@,
                    ));
                assert(pds[x] == pds.drop_last()[x]);
            } else {
                assert(pair_qualifies(sps, p, max_distance, speed_milli, max_duration,
                    waiting_time, mode));
                assert(pds[pds.len() - 1] == p);
            }
        }
    }
}

/// Distance monotonicity with values: when stop identifiers are unique and
/// each unordered pair is a candidate at most once, widening the distance
/// cap keeps every edge exactly as it was and only adds new ones.
pub proof fn lemma_geo_monotone_values(
    sps: Seq<StopPoint>,
    pds: Seq<PairDist>,
    d1: u64,
    d2: u64,
    speed_milli: u32,
    max_duration: u32,
    waiting_time: Option<u32>,
    mode: TransfersMode,
)
    requires
        d1 <= d2,
        distinct_ids(sps),
        distinct_pairs(pds),
    ensures
        forall|k: PairKey|
            #[trigger] geo_map(sps, pds, d1, speed_milli, max_duration, waiting_time,
                mode).contains_key(k) ==> geo_map(sps, pds, d2, speed_milli, max_duration,
                waiting_time, mode).contains_key(k) && geo_map(sps, pds, d1, speed_milli,
                max_duration, waiting_time, mode)[k] == geo_map(sps, pds, d2, speed_milli,
                max_duration, waiting_time, mode)[k],
    decreases pds.len(),
{
    if pds.len() > 0 {
        assert(distinct_pairs(pds.drop_last())) by {
            assert(forall|i: int, j: int|
                0 <= i < j < pds.len() - 1 ==> pds.drop_last()[i] == pds[i]
                    && pds.drop_last()[j] == pds[j]);
        }
        lemma_geo_monotone_values(sps, pds.drop_last(), d1, d2, speed_milli, max_duration,
            waiting_time, mode);
        lemma_geo_dom(sps, pds.drop_last(), d1, speed_milli, max_duration, waiting_time, mode);
        lemma_geo_dom(sps, pds.drop_last(), d2, speed_milli, max_duration, waiting_time, mode);
        let g1p = geo_map(sps, pds.drop_last(), d1, speed_milli, max_duration, waiting_time,
            mode);
        let g2p = geo_map(sps, pds.drop_last(), d2, speed_milli, max_duration, waiting_time,
            mode);
        let g1 = geo_map(sps, pds, d1, speed_milli, max_duration, waiting_time, mode);
        let g2 = geo_map(sps, pds, d2, speed_milli, max_duration, waiting_time, mode);
        let p = pds.last();
        if pair_qualifies(sps, p, d2, speed_milli, max_duration, waiting_time, mode) {
            let k1 = (sps[p.a as int].id@, sps[p.b as int].id@);
            let k2 = (sps[p.b as int].id@, sps[p.a as int].id@);
            assert(!g1p.contains_key(k1) && !g1p.contains_key(k2) && !g2p.contains_key(k1)
                && !g2p.contains_key(k2)) by {
                lemma_geo_prev_free(sps, pds, d1, speed_milli, max_duration, waiting_time, mode);
                lemma_geo_prev_free(sps, pds, d2, speed_milli, max_duration, waiting_time, mode);
            }
            assert forall|k: PairKey| #[trigger] g1.contains_key(k) implies g2.contains_key(k)
                && g1[k] == g2[k] by {
                if k == k1 || k == k2 {
                } else {
                    assert(g1p.contains_key(k));
                    assert(g2p.contains_key(k) && g1p[k] == g2p[k]);
                }
            }
        } else {
            assert(!pair_qualifies(sps, p, d1, speed_milli, max_duration, waiting_time, mode));
            assert(g1 == g1p);
            assert forall|k: PairKey| #[trigger] g1.contains_key(k) implies g2.contains_key(k)
                && g1[k] == g2[k] by {
                assert(g1p.contains_key(k));
            }
        }
    }
}

/// Under unique identifiers and distinct candidates, the keys of the last
/// candidate are still free in the edge set of the earlier candidates.
proof fn lemma_geo_prev_free(
    sps: Seq<StopPoint>,
    pds: Seq<PairDist>,
    max_distance: u64,
    speed_milli: u32,
    max_duration: u32,
    waiting_time: Option<u32>,
    mode: TransfersMode,
)
    requires
        distinct_ids(sps),
        distinct_pairs(pds),
        pds.len() > 0,
        pds.last().a < sps.len(),
        pds.last().b < sps.len(),
    ensures
        !geo_map(sps, pds.drop_last(), max_distance, speed_milli, max_duration, waiting_time,
            mode).contains_key((sps[pds.last().a as int].id@, sps[pds.last().b as int].id@)),
        !geo_map(sps, pds.drop_last(), max_distance, speed_milli, max_duration, waiting_time,
            mode).contains_key((sps[pds.last().b as int].id@, sps[pds.last().a as int].id@)),
{
    lemma_geo_dom(sps, pds.drop_last(), max_distance, speed_milli, max_duration, waiting_time,
        mode);
    let prev = geo_map(sps, pds.drop_last(), max_distance, speed_milli, max_duration,
        waiting_time, mode);
    let p = pds.last();
    let k1 = (sps[p.a as int].id@, sps[p.b as int].id@);
    let k2 = (sps[p.b as int].id@, sps[p.a as int].id@);
    assert forall|k: PairKey| k == k1 || k == k2 implies !prev.contains_key(k) by {
        if prev.contains_key(k) {
            let x = choose|x: int|
                0 <= x < pds.drop_last().len() && pair_qualifies(sps, #[trigger] pds.drop_last()[x],
                    max_distance, speed_milli, max_duration, waiting_time, mode) && (k == (
                    sps[pds.drop_last()[x].a as int].id@,
                    sps[pds.drop_last()[x].b as int].id@,
                ) || k == (
                    sps[pds.drop_last()[x].b as int].id@,
                    sps[pds.drop_last()[x].a as int].id@,
                ));
            let q = pds.drop_last()[x];
            assert(pds[x] == q);
            lemma_same_id_same_index(sps, q.a as int, p.a as int);
            lemma_same_id_same_index(sps, q.a as int, p.b as int);
            lemma_same_id_same_index(sps, q.b as int, p.a as int);
            lemma_same_id_same_index(sps, q.b as int, p.b as int);
            assert(!((q.a == p.a && q.b == p.b) || (q.a == p.b && q.b == p.a)));
        }
    }
}

/// With unique identifiers, an identifier determines its index.
proof fn lemma_same_id_same_index(sps: Seq<StopPoint>, i: int, j: int)
    requires
        distinct_ids(sps),
        0 <= i < sps.len(),
        0 <= j < sps.len(),
    ensures
        sps[i].id@ == sps[j].id@ ==> i == j,
{
    if i < j {
        assert(sps[i].id@ != sps[j].id@);
    } else if j < i {
        assert(sps[j].id@ != sps[i].id@);
    }
}

} // verus!
