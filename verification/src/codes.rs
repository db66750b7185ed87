//! The code application engine: matches parsed code rules against the
//! model, attaches external codes, and reports every outcome.
//!
//! The whole batch always completes: a rule whose target is missing, whose
//! triple already carries a different value, or whose line was malformed
//! becomes a report entry, never an error — this engine runs unattended
//! against third-party rule submissions. Existing model data always wins
//! over rule-supplied enrichment.

use vstd::prelude::*;
use crate::kv::{kv_map, kv_has, lemma_kv_dom, lemma_kv_index, lemma_kv_push,
    lemma_kv_push_unique};
use crate::model::{Model, ObjectType, ObjectCode, code_entries, code_map, codes_unique,
    find_code, stop_exists, id_exists, has_stop, has_id};
use crate::rules::{CodeRule, CodeRuleV, code_rule_view, ParsedCodeLine, parsed_code_view,
    parsed_views, MalformedRule};

verus! {

/// The key of the object-code table.
pub type CodeKey3 = (ObjectType, Seq<char>, Seq<char>);

/// Outcome of one processed code rule; each processed line gets exactly
/// one of these in the report, in processing order.
#[derive(Clone, Debug, PartialEq, Eq)]
pub enum ReportEntry {
    /// The code was attached to its target.
    Applied(CodeRule),
    /// The target entity is not in the model; nothing was attached.
    TargetNotFound(CodeRule),
    /// The triple already carries a different value, which wins; the
    /// existing value is reported alongside the refused rule.
    ValueConflict(CodeRule, String),
    /// The rule line could not be parsed.
    Malformed(MalformedRule),
}

pub ghost enum ReportEntryV {
    Applied(CodeRuleV),
    TargetNotFound(CodeRuleV),
    ValueConflict(CodeRuleV, Seq<char>),
    Malformed(MalformedRule),
}

pub open spec fn report_entry_view(e: ReportEntry) -> ReportEntryV {
    match e {
        ReportEntry::Applied(c) => ReportEntryV::Applied(code_rule_view(c)),
        ReportEntry::TargetNotFound(c) => ReportEntryV::TargetNotFound(code_rule_view(c)),
        ReportEntry::ValueConflict(c, v) => ReportEntryV::ValueConflict(code_rule_view(c), v@),
        ReportEntry::Malformed(m) => ReportEntryV::Malformed(m),
    }
}

pub open spec fn report_views(s: Seq<ReportEntry>) -> Seq<ReportEntryV> {
    s.map_values(|e: ReportEntry| report_entry_view(e))
}

/// Whether the targeted entity exists in the model.
pub open spec fn target_known(m: Model, typ: ObjectType, id: Seq<char>) -> bool {
    match typ {
        ObjectType::StopPoint => has_stop(m.stop_points@, id),
        ObjectType::StopArea => has_id(m.stop_areas@, id),
        ObjectType::Line => has_id(m.lines@, id),
        ObjectType::Route => has_id(m.routes@, id),
    }
}

/// One step of the code engine: the code map after one parsed line, and
/// the line's report entry.
pub open spec fn code_step(
    m: Model,
    cm: Map<CodeKey3, Seq<char>>,
    item: Result<CodeRuleV, MalformedRule>,
) -> (Map<CodeKey3, Seq<char>>, ReportEntryV) {
    match item {
        Err(bad) => (cm, ReportEntryV::Malformed(bad)),
        Ok(c) => {
            let k3 = (c.object_type, c.object_id, c.code_key);
            if !target_known(m, c.object_type, c.object_id) {
                (cm, ReportEntryV::TargetNotFound(c))
            } else if cm.contains_key(k3) && cm[k3] != c.code_value {
                (cm, ReportEntryV::ValueConflict(c, cm[k3]))
            } else {
                (cm.insert(k3, c.code_value), ReportEntryV::Applied(c))
            }
        },
    }
}

/// The code engine over a whole list of parsed lines: the final code map
/// and the report, one entry per line in order.
pub open spec fn apply_codes_v(
    m: Model,
    cm: Map<CodeKey3, Seq<char>>,
    items: Seq<Result<CodeRuleV, MalformedRule>>,
) -> (Map<CodeKey3, Seq<char>>, Seq<ReportEntryV>)
    decreases items.len(),
{
    if items.len() == 0 {
        (cm, Seq::empty())
    } else {
        let prev = apply_codes_v(m, cm, items.drop_last());
        let st = code_step(m, prev.0, items.last());
        (st.0, prev.1.push(st.1))
    }
}

/// Apply parsed code rules to the model.
///
/// Every parsed line yields exactly one report entry, in order: `Applied`
/// when the target exists and the triple was free (or already carried the
/// same value, collapsed as one), `TargetNotFound` when it does not,
/// `ValueConflict` when the triple carries a different value — which is
/// kept — and `Malformed` for lines the parser refused. Only the
/// object-code table of the model is touched.
#[verifier::loop_isolation(false)]
pub fn apply_code_rules(model: &mut Model, parsed: &Vec<ParsedCodeLine>) -> (report: Vec<
    ReportEntry,
>)
    requires
        old(model).wf(),
    ensures
        final(model).wf(),
        final(model).same_base(*old(model)),
        final(model).transfers == old(model).transfers,
        report@.len() == parsed@.len(),
        code_map(final(model).object_codes@) == apply_codes_v(
            *old(model),
            code_map(old(model).object_codes@),
            parsed_views(parsed@),
        ).0,
        report_views(report@) == apply_codes_v(
            *old(model),
            code_map(old(model).object_codes@),
            parsed_views(parsed@),
        ).1,
{
    let ghost m0 = *old(model);
    let ghost cm0 = code_map(old(model).object_codes@);
    let ghost pv = parsed_views(parsed@);
    let mut report: Vec<ReportEntry> = Vec::new();
    let n: usize = parsed.len();
    let mut i: usize = 0;
    proof {
        assert(pv.take(0) =~= Seq::<Result<CodeRuleV, MalformedRule>>::empty());
    }
    while i < n
        invariant
            i <= n,
            model.stop_points == m0.stop_points,
            model.stop_areas == m0.stop_areas,
            model.lines == m0.lines,
            model.routes == m0.routes,
            model.transfers == m0.transfers,
            codes_unique(model.object_codes@),
            report@.len() == i,
            code_map(model.object_codes@) == apply_codes_v(m0, cm0, pv.take(i as int)).0,
            report_views(report@) == apply_codes_v(m0, cm0, pv.take(i as int)).1,
        decreases n - i,
    {
        let ghost cm = code_map(model.object_codes@);
        proof {
            assert(pv.take(i as int + 1).drop_last() =~= pv.take(i as int));
            assert(pv.take(i as int + 1).last() == pv[i as int]);
            assert(pv[i as int] == parsed_code_view(parsed@[i as int]));
        }
        match &parsed[i] {
            ParsedCodeLine::Bad(bad) => {
                let entry = ReportEntry::Malformed(*bad);
                proof {
                    assert(report_views(report@.push(entry)) =~= report_views(report@).push(
                        report_entry_view(entry)));
                }
                report.push(entry);
            },
            ParsedCodeLine::Rule(c) => {
                let ghost cv = code_rule_view(parsed@[i as int]->Rule_0);
                let ghost k3 = (cv.object_type, cv.object_id, cv.code_key);
                let target_found: bool = match c.object_type {
                    ObjectType::StopPoint => stop_exists(&model.stop_points, &c.object_id),
                    ObjectType::StopArea => id_exists(&model.stop_areas, &c.object_id),
                    ObjectType::Line => id_exists(&model.lines, &c.object_id),
                    ObjectType::Route => id_exists(&model.routes, &c.object_id),
                };
                proof {
                    assert(target_found == target_known(m0, cv.object_type, cv.object_id));
                    lemma_kv_dom(code_entries(model.object_codes@));
                }
                if !target_found {
                    let entry = ReportEntry::TargetNotFound(c.duplicate());
                    proof {
                        assert(report_views(report@.push(entry)) =~= report_views(report@).push(
                            report_entry_view(entry)));
                    }
                    report.push(entry);
                } else {
                    let ghost pre = model.object_codes@;
                    match find_code(&model.object_codes, c.object_type, &c.object_id, &c.code_key) {
                        Some(x) => {
                            proof {
                                assert(code_entries(pre)[x as int] == (
                                    (
                                        pre[x as int].object_type,
                                        pre[x as int].object_id@,
                                        pre[x as int].code_key@,
                                    ),
                                    pre[x as int].code_value@,
                                ));
                                assert(code_entries(pre)[x as int].0 == k3);
                                assert(kv_has(code_entries(pre), k3));
                                assert(cm.contains_key(k3));
                                lemma_kv_index(code_entries(pre), x as int);
                                assert(cm[k3] == pre[x as int].code_value@);
                            }
                            if model.object_codes[x].code_value == c.code_value {
                                let entry = ReportEntry::Applied(c.duplicate());
                                proof {
                                    assert(cm.insert(k3, cv.code_value) =~= cm);
                                    assert(report_views(report@.push(entry)) =~= report_views(
                                        report@).push(report_entry_view(entry)));
                                }
                                report.push(entry);
                            } else {
                                let entry = ReportEntry::ValueConflict(
                                    c.duplicate(),
                                    model.object_codes[x].code_value.clone(),
                                );
                                proof {
                                    assert(report_views(report@.push(entry)) =~= report_views(
                                        report@).push(report_entry_view(entry)));
                                }
                                report.push(entry);
                            }
                        },
                        None => {
                            proof {
                                assert(!kv_has(code_entries(pre), k3));
                                assert(!cm.contains_key(k3));
                                lemma_kv_push_unique(code_entries(pre), (k3, cv.code_value));
                                lemma_kv_push(code_entries(pre), (k3, cv.code_value));
                            }
                            let oc = ObjectCode {
                                object_type: c.object_type,
                                object_id: c.object_id.clone(),
                                code_key: c.code_key.clone(),
                                code_value: c.code_value.clone(),
                            };
                            model.object_codes.push(oc);
                            let entry = ReportEntry::Applied(c.duplicate());
                            proof {
                                assert(code_entries(model.object_codes@) =~= code_entries(
                                    pre).push((k3, cv.code_value)));
                                assert(code_map(model.object_codes@) == cm.insert(
                                    k3,
                                    cv.code_value));
                                assert(report_views(report@.push(entry)) =~= report_views(
                                    report@).push(report_entry_view(entry)));
                            }
                            report.push(entry);
                        },
                    }
                }
            },
        }
        proof {
            assert(code_map(model.object_codes@) == apply_codes_v(
                m0,
                cm0,
                pv.take(i as int + 1),
            ).0);
            assert(report_views(report@) == apply_codes_v(m0, cm0, pv.take(i as int + 1)).1);
        }
        i = i + 1;
    }
    proof {
        assert(pv.take(n as int) =~= pv);
    }
    report
}

} // verus!
