//! The two declarative rule languages, parsed from line-oriented files.
//!
//! Both shapes are comma-separated with a fixed field order and a tolerated
//! header line. Transfer rules: `from_stop_id,to_stop_id,action,duration`
//! with action `force`, `force_oneway`, `override` (all three take a
//! duration in seconds) or `remove` (empty duration field). Code rules:
//! `object_type,object_id,code_key,code_value` with an object-type token
//! out of `stop_point`, `stop_area`, `line`, `route`.
//!
//! A malformed transfer rule fails the whole parse — an under-specified
//! topology rule must never be skipped silently — while a malformed code
//! rule becomes a report entry downstream and parsing continues.

use vstd::prelude::*;
use crate::model::ObjectType;
use crate::scan::{split_commas, split_line, valid_u32, dec_val, parse_u32, views_of,
    lemma_split_len};

verus! {

/// Why a rule line was refused.
#[derive(Clone, Copy, PartialEq, Eq, Structural, Debug)]
pub enum ParseReason {
    WrongFieldCount,
    UnknownAction,
    BadDuration,
    UnknownObjectType,
}

/// A refused rule line: file index in the input order, 1-based line number,
/// and the reason.
#[derive(Clone, Copy, PartialEq, Eq, Structural, Debug)]
pub struct MalformedRule {
    pub file: usize,
    pub line: usize,
    pub reason: ParseReason,
}

/// What a transfer rule asks for. Pair-level actions touch both directed
/// edges of their stop-point pair; `ForceOneWay` touches only the edge from
/// `from_id` to `to_id`.
#[derive(Clone, Copy, PartialEq, Eq, Structural, Debug)]
pub enum TransferRuleAction {
    /// Insert or replace the edges with this duration, regardless of
    /// distance and mode.
    Force(u32),
    /// Insert or replace the single directed edge with this duration.
    ForceOneWay(u32),
    /// Delete the edges, wherever they came from.
    Remove,
    /// Change only the duration of edges that exist anyway; reported when
    /// no such edge exists.
    Override(u32),
}

#[derive(Clone, Debug, PartialEq, Eq)]
pub struct TransferRule {
    pub from_id: String,
    pub to_id: String,
    pub action: TransferRuleAction,
}

pub ghost struct TransferRuleV {
    pub from: Seq<char>,
    pub to: Seq<char>,
    pub action: TransferRuleAction,
}

pub open spec fn transfer_rule_view(r: TransferRule) -> TransferRuleV {
    TransferRuleV { from: r.from_id@, to: r.to_id@, action: r.action }
}

pub open spec fn rule_views(s: Seq<TransferRule>) -> Seq<TransferRuleV> {
    s.map_values(|r: TransferRule| transfer_rule_view(r))
}

/// A desired external-code assignment.
#[derive(Clone, Debug, PartialEq, Eq)]
pub struct CodeRule {
    pub object_type: ObjectType,
    pub object_id: String,
    pub code_key: String,
    pub code_value: String,
}

pub ghost struct CodeRuleV {
    pub object_type: ObjectType,
    pub object_id: Seq<char>,
    pub code_key: Seq<char>,
    pub code_value: Seq<char>,
}

pub open spec fn code_rule_view(c: CodeRule) -> CodeRuleV {
    CodeRuleV {
        object_type: c.object_type,
        object_id: c.object_id@,
        code_key: c.code_key@,
        code_value: c.code_value@,
    }
}

/// One line of a code-rule file after parsing: a rule, or where and why the
/// line was refused.
#[derive(Clone, Debug, PartialEq, Eq)]
pub enum ParsedCodeLine {
    Rule(CodeRule),
    Bad(MalformedRule),
}

pub open spec fn parsed_code_view(p: ParsedCodeLine) -> Result<CodeRuleV, MalformedRule> {
    match p {
        ParsedCodeLine::Rule(c) => Ok(code_rule_view(c)),
        ParsedCodeLine::Bad(m) => Err(m),
    }
}

pub open spec fn parsed_views(s: Seq<ParsedCodeLine>) -> Seq<Result<CodeRuleV, MalformedRule>> {
    s.map_values(|p: ParsedCodeLine| parsed_code_view(p))
}

impl CodeRule {
    /// A deep copy, field for field.
    pub fn duplicate(&self) -> (r: CodeRule)
        ensures
            r == *self,
    {
        CodeRule {
            object_type: self.object_type,
            object_id: self.object_id.clone(),
            code_key: self.code_key.clone(),
            code_value: self.code_value.clone(),
        }
    }
}

impl ParsedCodeLine {
    /// A deep copy, field for field.
    pub fn duplicate(&self) -> (r: ParsedCodeLine)
        ensures
            r == *self,
    {
        match self {
            ParsedCodeLine::Rule(c) => ParsedCodeLine::Rule(c.duplicate()),
            ParsedCodeLine::Bad(m) => ParsedCodeLine::Bad(*m),
        }
    }
}

/// Meaning of one transfer-rule line.
pub open spec fn parse_transfer_line_v(line: Seq<char>) -> Result<TransferRuleV, ParseReason> {
    let f = split_commas(line);
    if f.len() != 4 {
        Err(ParseReason::WrongFieldCount)
    } else if f[2] == "force"@ {
        if valid_u32(f[3]) {
            Ok(TransferRuleV {
                from: f[0],
                to: f[1],
                action: TransferRuleAction::Force(dec_val(f[3]) as u32),
            })
        } else {
            Err(ParseReason::BadDuration)
        }
    } else if f[2] == "force_oneway"@ {
        if valid_u32(f[3]) {
            Ok(TransferRuleV {
                from: f[0],
                to: f[1],
                action: TransferRuleAction::ForceOneWay(dec_val(f[3]) as u32),
            })
        } else {
            Err(ParseReason::BadDuration)
        }
    } else if f[2] == "override"@ {
        if valid_u32(f[3]) {
            Ok(TransferRuleV {
                from: f[0],
                to: f[1],
                action: TransferRuleAction::Override(dec_val(f[3]) as u32),
            })
        } else {
            Err(ParseReason::BadDuration)
        }
    } else if f[2] == "remove"@ {
        if f[3].len() == 0 {
            Ok(TransferRuleV { from: f[0], to: f[1], action: TransferRuleAction::Remove })
        } else {
            Err(ParseReason::BadDuration)
        }
    } else {
        Err(ParseReason::UnknownAction)
    }
}

/// Parse one transfer-rule line.
pub fn parse_transfer_line(line: &str) -> (r: Result<TransferRule, ParseReason>)
    ensures
        match r {
            Ok(rule) => parse_transfer_line_v(line@) == Result::<TransferRuleV, ParseReason>::Ok(
                transfer_rule_view(rule),
            ),
            Err(e) => parse_transfer_line_v(line@) == Result::<TransferRuleV, ParseReason>::Err(e),
        },
{
    let fields = split_line(line);
    let ghost f = split_commas(line@);
    proof {
        assert(views_of(fields@).len() == fields@.len());
    }
    if fields.len() != 4 {
        return Err(ParseReason::WrongFieldCount);
    }
    proof {
        assert(views_of(fields@)[0] == fields@[0]@);
        assert(views_of(fields@)[1] == fields@[1]@);
        assert(views_of(fields@)[2] == fields@[2]@);
        assert(views_of(fields@)[3] == fields@[3]@);
    }
    let action = if fields[2] == String::from_str("force") {
        match parse_u32(fields[3].as_str()) {
            Some(d) => TransferRuleAction::Force(d),
            None => {
                return Err(ParseReason::BadDuration);
            },
        }
    } else if fields[2] == String::from_str("force_oneway") {
        match parse_u32(fields[3].as_str()) {
            Some(d) => TransferRuleAction::ForceOneWay(d),
            None => {
                return Err(ParseReason::BadDuration);
            },
        }
    } else if fields[2] == String::from_str("override") {
        match parse_u32(fields[3].as_str()) {
            Some(d) => TransferRuleAction::Override(d),
            None => {
                return Err(ParseReason::BadDuration);
            },
        }
    } else if fields[2] == String::from_str("remove") {
        if fields[3].as_str().unicode_len() == 0 {
            TransferRuleAction::Remove
        } else {
            return Err(ParseReason::BadDuration);
        }
    } else {
        return Err(ParseReason::UnknownAction);
    };
    Ok(TransferRule { from_id: fields[0].clone(), to_id: fields[1].clone(), action })
}

/// Meaning of one code-rule line.
pub open spec fn parse_code_line_v(line: Seq<char>) -> Result<CodeRuleV, ParseReason> {
    let f = split_commas(line);
    if f.len() != 4 {
        Err(ParseReason::WrongFieldCount)
    } else if f[0] == "stop_point"@ {
        Ok(CodeRuleV {
            object_type: ObjectType::StopPoint,
            object_id: f[1],
            code_key: f[2],
            code_value: f[3],
        })
    } else if f[0] == "stop_area"@ {
        Ok(CodeRuleV {
            object_type: ObjectType::StopArea,
            object_id: f[1],
            code_key: f[2],
            code_value: f[3],
        })
    } else if f[0] == "line"@ {
        Ok(CodeRuleV {
            object_type: ObjectType::Line,
            object_id: f[1],
            code_key: f[2],
            code_value: f[3],
        })
    } else if f[0] == "route"@ {
        Ok(CodeRuleV {
            object_type: ObjectType::Route,
            object_id: f[1],
            code_key: f[2],
            code_value: f[3],
        })
    } else {
        Err(ParseReason::UnknownObjectType)
    }
}

/// Parse one code-rule line.
pub fn parse_code_line(line: &str) -> (r: Result<CodeRule, ParseReason>)
    ensures
        match r {
            Ok(rule) => parse_code_line_v(line@) == Result::<CodeRuleV, ParseReason>::Ok(
                code_rule_view(rule),
            ),
            Err(e) => parse_code_line_v(line@) == Result::<CodeRuleV, ParseReason>::Err(e),
        },
{
    let fields = split_line(line);
    proof {
        assert(views_of(fields@).len() == fields@.len());
    }
    if fields.len() != 4 {
        return Err(ParseReason::WrongFieldCount);
    }
    proof {
        assert(views_of(fields@)[0] == fields@[0]@);
        assert(views_of(fields@)[1] == fields@[1]@);
        assert(views_of(fields@)[2] == fields@[2]@);
        assert(views_of(fields@)[3] == fields@[3]@);
    }
    let typ = if fields[0] == String::from_str("stop_point") {
        ObjectType::StopPoint
    } else if fields[0] == String::from_str("stop_area") {
        ObjectType::StopArea
    } else if fields[0] == String::from_str("line") {
        ObjectType::Line
    } else if fields[0] == String::from_str("route") {
        ObjectType::Route
    } else {
        return Err(ParseReason::UnknownObjectType);
    };
    Ok(CodeRule {
        object_type: typ,
        object_id: fields[1].clone(),
        code_key: fields[2].clone(),
        code_value: fields[3].clone(),
    })
}

/// A line that carries no rule: an empty line anywhere, or the tolerated
/// header as the first line of a transfer-rule file.
pub open spec fn t_line_skipped(lines: Seq<Seq<char>>, j: int) -> bool {
    lines[j].len() == 0 || (j == 0 && split_commas(lines[j])[0] == "from_stop_id"@)
}

/// Same for a code-rule file, whose header starts with `object_type`.
pub open spec fn c_line_skipped(lines: Seq<Seq<char>>, j: int) -> bool {
    lines[j].len() == 0 || (j == 0 && split_commas(lines[j])[0] == "object_type"@)
}

pub open spec fn parse_transfer_file_v(lines: Seq<Seq<char>>) -> Seq<TransferRuleV>
    decreases lines.len(),
{
    if lines.len() == 0 {
        Seq::empty()
    } else {
        let pre = parse_transfer_file_v(lines.drop_last());
        let j = lines.len() - 1;
        if t_line_skipped(lines, j) {
            pre
        } else {
            match parse_transfer_line_v(lines[j]) {
                Ok(r) => pre.push(r),
                Err(_) => pre,
            }
        }
    }
}

/// Every rule-bearing line of the file parses.
pub open spec fn transfer_file_ok(lines: Seq<Seq<char>>) -> bool {
    forall|j: int|
        0 <= j < lines.len() && !t_line_skipped(lines, j) ==> (#[trigger] parse_transfer_line_v(
            lines[j],
        )) is Ok
}

pub open spec fn parse_transfer_files_v(files: Seq<Seq<Seq<char>>>) -> Seq<TransferRuleV>
    decreases files.len(),
{
    if files.len() == 0 {
        Seq::empty()
    } else {
        parse_transfer_files_v(files.drop_last()).add(parse_transfer_file_v(files.last()))
    }
}

pub open spec fn transfer_files_ok(files: Seq<Seq<Seq<char>>>) -> bool {
    forall|f: int| 0 <= f < files.len() ==> transfer_file_ok(#[trigger] files[f])
}

proof fn lemma_rule_views_push(s: Seq<TransferRule>, x: TransferRule)
    ensures
        rule_views(s.push(x)) == rule_views(s).push(transfer_rule_view(x)),
{
    assert(rule_views(s.push(x)) =~= rule_views(s).push(transfer_rule_view(x)));
}

/// Parse an ordered list of transfer-rule files, each given as its lines.
/// The result keeps file order, then line order; a malformed line anywhere
/// fails the whole parse and names the first offending file and line.
pub fn parse_transfer_rules(files: &Vec<Vec<String>>) -> (r: Result<Vec<TransferRule>, MalformedRule>)
    ensures
        match r {
            Ok(rules) => transfer_files_ok(files.deep_view()) && rule_views(rules@)
                == parse_transfer_files_v(files.deep_view()),
            Err(e) => {
                &&& !transfer_files_ok(files.deep_view())
                &&& (e.file as int) < files.deep_view().len()
                &&& 1 <= e.line
                &&& (e.line as int) - 1 < files.deep_view()[e.file as int].len()
                &&& !t_line_skipped(files.deep_view()[e.file as int], e.line as int - 1)
                &&& parse_transfer_line_v(files.deep_view()[e.file as int][e.line as int - 1])
                    == Result::<TransferRuleV, ParseReason>::Err(e.reason)
                &&& forall|f2: int|
                    0 <= f2 < e.file as int ==> transfer_file_ok(#[trigger] files.deep_view()[f2])
                &&& forall|j2: int|
                    0 <= j2 < e.line as int - 1 && !t_line_skipped(
                        files.deep_view()[e.file as int],
                        j2,
                    ) ==> (#[trigger] parse_transfer_line_v(
                        files.deep_view()[e.file as int][j2],
                    )) is Ok
            },
        },
{
    let ghost dv = files.deep_view();
    let mut rules: Vec<TransferRule> = Vec::new();
    let nf: usize = files.len();
    let mut fi: usize = 0;
    proof {
        assert(dv.take(0) =~= Seq::<Seq<Seq<char>>>::empty());
    }
    while fi < nf
        invariant
            dv == files.deep_view(),
            nf == files@.len(),
            fi <= nf,
            dv.len() == nf,
            rule_views(rules@) == parse_transfer_files_v(dv.take(fi as int)),
            forall|f2: int| 0 <= f2 < fi as int ==> transfer_file_ok(#[trigger] dv[f2]),
        decreases nf - fi,
    {
        let nl: usize = files[fi].len();
        let mut j: usize = 0;
        proof {
            assert(dv[fi as int] == files@[fi as int].deep_view());
            assert(dv[fi as int].len() == nl);
            assert(dv[fi as int].take(0) =~= Seq::<Seq<char>>::empty());
        }
        while j < nl
            invariant
                dv == files.deep_view(),
                nf == files@.len(),
                fi < nf,
                dv.len() == nf,
                nl == files@[fi as int]@.len(),
                j <= nl,
                dv[fi as int] == files@[fi as int].deep_view(),
                dv[fi as int].len() == nl,
                rule_views(rules@) == parse_transfer_files_v(dv.take(fi as int)).add(
                    parse_transfer_file_v(dv[fi as int].take(j as int)),
                ),
                forall|f2: int| 0 <= f2 < fi as int ==> transfer_file_ok(#[trigger] dv[f2]),
                forall|j2: int|
                    0 <= j2 < j as int && !t_line_skipped(dv[fi as int], j2) ==> (
                    #[trigger] parse_transfer_line_v(dv[fi as int][j2])) is Ok,
            decreases nl - j,
        {
            let line: &String = &files[fi][j];
            proof {
                assert(dv[fi as int][j as int] == files@[fi as int]@[j as int]@);
            }
            let mut skip_line: bool = line.as_str().unicode_len() == 0;
            if !skip_line && j == 0 {
                let hf = split_line(line.as_str());
                proof {
                    lemma_split_len(line@);
                    assert(views_of(hf@)[0] == hf@[0]@);
                }
                if hf[0] == String::from_str("from_stop_id") {
                    skip_line = true;
                }
            }
            let ghost prefix = dv[fi as int].take(j as int);
            let ghost prefix1 = dv[fi as int].take(j as int + 1);
            proof {
                assert(prefix1.drop_last() =~= prefix);
                assert(prefix1.last() == dv[fi as int][j as int]);
                assert(t_line_skipped(prefix1, j as int) == t_line_skipped(dv[fi as int], j as int));
                assert(skip_line == t_line_skipped(dv[fi as int], j as int));
            }
            if !skip_line {
                match parse_transfer_line(line.as_str()) {
                    Ok(rule) => {
                        proof {
                            lemma_rule_views_push(rules@, rule);
                        }
                        rules.push(rule);
                    },
                    Err(reason) => {
                        proof {
                            assert(parse_transfer_line_v(dv[fi as int][j as int])
                                == Result::<TransferRuleV, ParseReason>::Err(reason));
                            assert(!transfer_file_ok(dv[fi as int])) by {
                                if transfer_file_ok(dv[fi as int]) {
                                    assert(parse_transfer_line_v(dv[fi as int][j as int]) is Ok);
                                }
                            }
                            assert(!transfer_files_ok(dv)) by {
                                if transfer_files_ok(dv) {
                                    assert(transfer_file_ok(dv[fi as int]));
                                }
                            }
                        }
                        return Err(MalformedRule { file: fi, line: j + 1, reason });
                    },
                }
            }
            j = j + 1;
        }
        proof {
            assert(dv[fi as int].take(nl as int) =~= dv[fi as int]);
            assert(dv.take(fi as int + 1).drop_last() =~= dv.take(fi as int));
            assert(dv.take(fi as int + 1).last() == dv[fi as int]);
        }
        fi = fi + 1;
    }
    proof {
        assert(dv.take(nf as int) =~= dv);
    }
    Ok(rules)
}

pub open spec fn parse_code_file_v(lines: Seq<Seq<char>>, fidx: int) -> Seq<
    Result<CodeRuleV, MalformedRule>,
>
    decreases lines.len(),
{
    if lines.len() == 0 {
        Seq::empty()
    } else {
        let pre = parse_code_file_v(lines.drop_last(), fidx);
        let j = lines.len() - 1;
        if c_line_skipped(lines, j) {
            pre
        } else {
            match parse_code_line_v(lines[j]) {
                Ok(c) => pre.push(Ok(c)),
                Err(reason) => pre.push(
                    Err(MalformedRule { file: fidx as usize, line: (j + 1) as usize, reason }),
                ),
            }
        }
    }
}

pub open spec fn parse_code_files_v(files: Seq<Seq<Seq<char>>>) -> Seq<
    Result<CodeRuleV, MalformedRule>,
>
    decreases files.len(),
{
    if files.len() == 0 {
        Seq::empty()
    } else {
        parse_code_files_v(files.drop_last()).add(
            parse_code_file_v(files.last(), files.len() - 1),
        )
    }
}

proof fn lemma_parsed_views_push(s: Seq<ParsedCodeLine>, x: ParsedCodeLine)
    ensures
        parsed_views(s.push(x)) == parsed_views(s).push(parsed_code_view(x)),
{
    assert(parsed_views(s.push(x)) =~= parsed_views(s).push(parsed_code_view(x)));
}

/// Parse an ordered list of code-rule files, each given as its lines.
/// Parsing never fails as a whole: a malformed line becomes a `Bad` entry
/// carrying its file index, 1-based line number and reason.
pub fn parse_code_rules(files: &Vec<Vec<String>>) -> (r: Vec<ParsedCodeLine>)
    ensures
        parsed_views(r@) == parse_code_files_v(files.deep_view()),
{
    let ghost dv = files.deep_view();
    let mut out: Vec<ParsedCodeLine> = Vec::new();
    let nf: usize = files.len();
    let mut fi: usize = 0;
    proof {
        assert(dv.take(0) =~= Seq::<Seq<Seq<char>>>::empty());
    }
    while fi < nf
        invariant
            dv == files.deep_view(),
            nf == files@.len(),
            fi <= nf,
            dv.len() == nf,
            parsed_views(out@) == parse_code_files_v(dv.take(fi as int)),
        decreases nf - fi,
    {
        let nl: usize = files[fi].len();
        let mut j: usize = 0;
        proof {
            assert(dv[fi as int] == files@[fi as int].deep_view());
            assert(dv[fi as int].len() == nl);
            assert(dv[fi as int].take(0) =~= Seq::<Seq<char>>::empty());
        }
        while j < nl
            invariant
                dv == files.deep_view(),
                nf == files@.len(),
                fi < nf,
                dv.len() == nf,
                nl == files@[fi as int]@.len(),
                j <= nl,
                dv[fi as int] == files@[fi as int].deep_view(),
                dv[fi as int].len() == nl,
                parsed_views(out@) == parse_code_files_v(dv.take(fi as int)).add(
                    parse_code_file_v(dv[fi as int].take(j as int), fi as int),
                ),
            decreases nl - j,
        {
            let line: &String = &files[fi][j];
            proof {
                assert(dv[fi as int][j as int] == files@[fi as int]@[j as int]@);
            }
            let mut skip_line: bool = line.as_str().unicode_len() == 0;
            if !skip_line && j == 0 {
                let hf = split_line(line.as_str());
                proof {
                    lemma_split_len(line@);
                    assert(views_of(hf@)[0] == hf@[0]@);
                }
                if hf[0] == String::from_str("object_type") {
                    skip_line = true;
                }
            }
            let ghost prefix = dv[fi as int].take(j as int);
            let ghost prefix1 = dv[fi as int].take(j as int + 1);
            proof {
                assert(prefix1.drop_last() =~= prefix);
                assert(prefix1.last() == dv[fi as int][j as int]);
                assert(c_line_skipped(prefix1, j as int) == c_line_skipped(dv[fi as int], j as int));
                assert(skip_line == c_line_skipped(dv[fi as int], j as int));
            }
            if !skip_line {
                match parse_code_line(line.as_str()) {
                    Ok(rule) => {
                        proof {
                            lemma_parsed_views_push(out@, ParsedCodeLine::Rule(rule));
                        }
                        out.push(ParsedCodeLine::Rule(rule));
                    },
                    Err(reason) => {
                        let bad = MalformedRule { file: fi, line: j + 1, reason };
                        proof {
                            lemma_parsed_views_push(out@, ParsedCodeLine::Bad(bad));
                        }
                        out.push(ParsedCodeLine::Bad(bad));
                    },
                }
            }
            j = j + 1;
        }
        proof {
            assert(dv[fi as int].take(nl as int) =~= dv[fi as int]);
            assert(dv.take(fi as int + 1).drop_last() =~= dv.take(fi as int));
            assert(dv.take(fi as int + 1).last() == dv[fi as int]);
        }
        fi = fi + 1;
    }
    proof {
        assert(dv.take(nf as int) =~= dv);
    }
    out
}

/// The keyed target of a parsed line, when it carries a rule.
pub open spec fn code_line_key(p: Result<CodeRuleV, MalformedRule>) -> Option<
    (ObjectType, Seq<char>, Seq<char>),
> {
    match p {
        Ok(c) => Some((c.object_type, c.object_id, c.code_key)),
        Err(_) => None,
    }
}

pub open spec fn some_has_key(
    s: Seq<Result<CodeRuleV, MalformedRule>>,
    k: (ObjectType, Seq<char>, Seq<char>),
) -> bool {
    exists|i: int| 0 <= i < s.len() && code_line_key(#[trigger] s[i]) == Some(k)
}

/// Last-write-wins collision resolution: a rule is dropped when a later
/// line targets the same `(object_type, object_id, code_key)`; refused
/// lines are always kept. Order is otherwise preserved.
pub open spec fn surviving(s: Seq<Result<CodeRuleV, MalformedRule>>) -> Seq<
    Result<CodeRuleV, MalformedRule>,
>
    decreases s.len(),
{
    if s.len() == 0 {
        s
    } else {
        let rest = surviving(s.drop_first());
        let keep = match code_line_key(s[0]) {
            Some(k) => !some_has_key(s.drop_first(), k),
            None => true,
        };
        if keep {
            seq![s[0]].add(rest)
        } else {
            rest
        }
    }
}

/// Whether a line at or after `start` targets the given key.
fn later_has_key(
    parsed: &Vec<ParsedCodeLine>,
    start: usize,
    typ: ObjectType,
    object_id: &String,
    code_key: &String,
) -> (r: bool)
    requires
        start <= parsed@.len(),
    ensures
        r == some_has_key(parsed_views(parsed@).skip(start as int), (typ, object_id@, code_key@)),
{
    let ghost tailv = parsed_views(parsed@).skip(start as int);
    let n: usize = parsed.len();
    let mut j: usize = start;
    while j < n
        invariant
            start <= j <= n,
            n == parsed@.len(),
            tailv == parsed_views(parsed@).skip(start as int),
            forall|m: int|
                0 <= m < j as int - start as int ==> code_line_key(#[trigger] tailv[m])
                    != Some((typ, object_id@, code_key@)),
        decreases n - j,
    {
        proof {
            assert(tailv[j as int - start as int] == parsed_views(parsed@)[j as int]);
        }
        match &parsed[j] {
            ParsedCodeLine::Rule(c) => {
                if c.object_type == typ && c.object_id == *object_id && c.code_key == *code_key {
                    return true;
                }
            },
            ParsedCodeLine::Bad(_) => {},
        }
        j = j + 1;
    }
    false
}

/// Apply last-write-wins collision resolution to parsed code lines.
pub fn resolve_code_lines(parsed: &Vec<ParsedCodeLine>) -> (r: Vec<ParsedCodeLine>)
    ensures
        parsed_views(r@) == surviving(parsed_views(parsed@)),
{
    let ghost sv = parsed_views(parsed@);
    let mut out: Vec<ParsedCodeLine> = Vec::new();
    let n: usize = parsed.len();
    let mut i: usize = 0;
    proof {
        assert(sv.skip(0) =~= sv);
        assert(parsed_views(out@).add(surviving(sv.skip(0))) =~= surviving(sv));
    }
    while i < n
        invariant
            n == parsed@.len(),
            i <= n,
            sv == parsed_views(parsed@),
            sv.len() == n,
            surviving(sv) == parsed_views(out@).add(surviving(sv.skip(i as int))),
        decreases n - i,
    {
        proof {
            assert(sv.skip(i as int)[0] == sv[i as int]);
            assert(sv.skip(i as int).drop_first() =~= sv.skip(i as int + 1));
            assert(sv[i as int] == parsed_code_view(parsed@[i as int]));
        }
        let keep: bool = match &parsed[i] {
            ParsedCodeLine::Rule(c) => !later_has_key(
                parsed,
                i + 1,
                c.object_type,
                &c.object_id,
                &c.code_key,
            ),
            ParsedCodeLine::Bad(_) => true,
        };
        if keep {
            let item = parsed[i].duplicate();
            proof {
                lemma_parsed_views_push(out@, item);
                assert(parsed_views(out@).push(sv[i as int]).add(surviving(sv.skip(i as int + 1)))
                    =~= parsed_views(out@).add(
                    seq![sv[i as int]].add(surviving(sv.skip(i as int + 1)))));
            }
            out.push(item);
        }
        i = i + 1;
    }
    proof {
        assert(sv.skip(n as int) =~= Seq::<Result<CodeRuleV, MalformedRule>>::empty());
        assert(parsed_views(out@).add(surviving(sv.skip(n as int))) =~= parsed_views(out@));
    }
    out
}

} // verus!
