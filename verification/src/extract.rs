//! Verified symbol and relation extraction.
//!
//! The functions here turn the plain match records produced by a pattern
//! run into symbol and relation records. Each is proved equal to a spec
//! function of its inputs, so extraction is a pure function of the
//! recognized structure: re-running it over unchanged matches reproduces
//! identical records.

use crate::queries::CapRole;
use crate::sitter::{match_views, CapModel, MatchModel, MatchRec};
use crate::symbols::{
    relation_views, symbol_views, CodeNode, NodeKind, RelationModel, RelationType, SymbolModel,
    SymbolRelation,
};
use crate::text::{
    after_last_char, file_pseudo_id, line_at, qualified_id, spec_after_last, spec_file_pseudo_id,
    spec_lines, spec_qualified_id, spec_strip_quotes, spec_trim, strip_quotes, trim_ws,
};
use vstd::prelude::*;
use vstd::string::StringExecFns;

verus! {

/// The role of capture index `idx`, with out-of-range indices unread.
pub open spec fn role_at(roles: Seq<CapRole>, idx: int) -> CapRole {
    if 0 <= idx < roles.len() {
        roles[idx]
    } else {
        CapRole::Other
    }
}

fn role_at_exec(roles: &Vec<CapRole>, idx: u32) -> (r: CapRole)
    ensures
        r == role_at(roles@, idx as int),
{
    if (idx as usize) < roles.len() {
        roles[idx as usize]
    } else {
        CapRole::Other
    }
}

/// The text of the last name-role capture of a match, if any.
pub open spec fn last_name(caps: Seq<CapModel>, roles: Seq<CapRole>) -> Option<Seq<char>>
    decreases caps.len(),
{
    if caps.len() == 0 {
        None
    } else if role_at(roles, caps.last().idx) == CapRole::Name {
        Some(caps.last().text)
    } else {
        last_name(caps.drop_last(), roles)
    }
}

/// The kind and capture of the last definition-role capture of a match, if
/// any.
pub open spec fn last_def(caps: Seq<CapModel>, roles: Seq<CapRole>) -> Option<(NodeKind, CapModel)>
    decreases caps.len(),
{
    if caps.len() == 0 {
        None
    } else if role_at(roles, caps.last().idx) matches CapRole::Def(k) {
        Some((role_at(roles, caps.last().idx)->Def_0, caps.last()))
    } else {
        last_def(caps.drop_last(), roles)
    }
}

/// A 0-based row as a 1-based line number, saturating at the machine limit.
pub open spec fn line_1based(row: int) -> int {
    if row < usize::MAX {
        row + 1
    } else {
        usize::MAX as int
    }
}

fn line_1b(row: usize) -> (l: usize)
    ensures
        l as int == line_1based(row as int),
{
    if row < usize::MAX {
        row + 1
    } else {
        row
    }
}

/// A 0-based row as a 1-based relation line, saturating at the record's
/// 32-bit limit.
pub open spec fn rel_line(row: int) -> int {
    if row + 1 <= u32::MAX {
        row + 1
    } else {
        u32::MAX as int
    }
}

fn rel_line_exec(row: usize) -> (l: u32)
    ensures
        l as int == rel_line(row as int),
{
    if row <= (u32::MAX - 1) as usize {
        (row as u32) + 1
    } else {
        u32::MAX
    }
}

/// The signature recorded for a definition starting at `row`: the trimmed
/// source line there, when the unit has such a line.
pub open spec fn sig_at(src: Seq<char>, row: int) -> Option<Seq<char>> {
    if 0 <= row < spec_lines(src).len() {
        Some(spec_trim(spec_lines(src)[row]))
    } else {
        None
    }
}

/// The symbol record one match produces: it needs both a declared name and
/// a definition capture, the later capture of each winning.
pub open spec fn symbol_of_match(
    m: MatchModel,
    roles: Seq<CapRole>,
    src: Seq<char>,
    file_name: Seq<char>,
    file_path: Seq<char>,
) -> Option<SymbolModel> {
    match (last_name(m.captures, roles), last_def(m.captures, roles)) {
        (Some(n), Some(d)) => {
            let ls = line_1based(d.1.row);
            let le = line_1based(d.1.end_row);
            Some(
                SymbolModel {
                    name: n,
                    id: spec_qualified_id(file_name, n),
                    kind: d.0,
                    file: file_path,
                    line_start: ls,
                    line_end: if le >= ls {
                        le
                    } else {
                        ls
                    },
                    column: d.1.col,
                    byte_start: d.1.byte_start,
                    byte_end: d.1.byte_end,
                    signature: sig_at(src, d.1.row),
                },
            )
        },
        _ => None,
    }
}

/// The symbol records of a sequence of matches, in match order.
pub open spec fn spec_symbols(
    ms: Seq<MatchModel>,
    roles: Seq<CapRole>,
    src: Seq<char>,
    file_name: Seq<char>,
    file_path: Seq<char>,
) -> Seq<SymbolModel>
    decreases ms.len(),
{
    if ms.len() == 0 {
        Seq::empty()
    } else {
        spec_symbols(ms.drop_last(), roles, src, file_name, file_path) + (match symbol_of_match(
            ms.last(),
            roles,
            src,
            file_name,
            file_path,
        ) {
            Some(s) => seq![s],
            None => Seq::empty(),
        })
    }
}

fn symbol_from_match(
    m: &MatchRec,
    roles: &Vec<CapRole>,
    src: &str,
    file_name: &str,
    file_path: &str,
) -> (r: Option<CodeNode>)
    ensures
        match r {
            Some(cn) => symbol_of_match(m@, roles@, src@, file_name@, file_path@) == Some(cn@),
            None => symbol_of_match(m@, roles@, src@, file_name@, file_path@) is None,
        },
{
    let n = m.captures.len();
    let mut name_i: Option<usize> = None;
    let mut def_i: Option<usize> = None;
    let mut def_kind = NodeKind::Function;
    let mut i: usize = 0;
    proof {
        assert(m@.captures.take(0) =~= Seq::<CapModel>::empty());
    }
    while i < n
        invariant
            n == m.captures@.len(),
            m@.captures.len() == n,
            i <= n,
            forall|j: int| 0 <= j < n ==> m@.captures[j] == m.captures@[j]@,
            match name_i {
                Some(j) => j < i && last_name(m@.captures.take(i as int), roles@) == Some(
                    m@.captures[j as int].text,
                ),
                None => last_name(m@.captures.take(i as int), roles@) is None,
            },
            match def_i {
                Some(j) => j < i && last_def(m@.captures.take(i as int), roles@) == Some(
                    (def_kind, m@.captures[j as int]),
                ),
                None => last_def(m@.captures.take(i as int), roles@) is None,
            },
        decreases n - i,
    {
        let role = role_at_exec(roles, m.captures[i].idx);
        proof {
            assert(m@.captures.take(i + 1).drop_last() =~= m@.captures.take(i as int));
            assert(m@.captures.take(i + 1).last() == m@.captures[i as int]);
        }
        match role {
            CapRole::Name => {
                name_i = Some(i);
            },
            CapRole::Def(k) => {
                def_i = Some(i);
                def_kind = k;
            },
            _ => {},
        }
        i += 1;
    }
    proof {
        assert(m@.captures.take(n as int) =~= m@.captures);
    }
    match (name_i, def_i) {
        (Some(ni), Some(di)) => {
            let nm = m.captures[ni].text.as_str();
            let c = &m.captures[di];
            let id = qualified_id(file_name, nm);
            let ls = line_1b(c.row);
            let le0 = line_1b(c.end_row);
            let le = if le0 >= ls {
                le0
            } else {
                ls
            };
            let sig: Option<String> = match line_at(src, c.row) {
                Some(l) => Some(trim_ws(l).to_owned()),
                None => None,
            };
            Some(
                CodeNode {
                    name: nm.to_owned(),
                    id,
                    kind: def_kind,
                    file: file_path.to_owned(),
                    line_start: ls,
                    line_end: le,
                    column: c.col,
                    byte_start: c.byte_start,
                    byte_end: c.byte_end,
                    signature: sig,
                },
            )
        },
        _ => None,
    }
}

/// Extract the symbol records of a pattern run, in match order.
pub fn extract_symbols(
    ms: &Vec<MatchRec>,
    roles: &Vec<CapRole>,
    src: &str,
    file_name: &str,
    file_path: &str,
) -> (r: Vec<CodeNode>)
    ensures
        symbol_views(r@) == spec_symbols(match_views(ms@), roles@, src@, file_name@, file_path@),
{
    let mut out: Vec<CodeNode> = Vec::new();
    let mut i: usize = 0;
    proof {
        assert(match_views(ms@).take(0) =~= Seq::<MatchModel>::empty());
        assert(symbol_views(out@) =~= Seq::<SymbolModel>::empty());
    }
    while i < ms.len()
        invariant
            i <= ms@.len(),
            symbol_views(out@) == spec_symbols(
                match_views(ms@).take(i as int),
                roles@,
                src@,
                file_name@,
                file_path@,
            ),
        decreases ms@.len() - i,
    {
        proof {
            assert(match_views(ms@).take(i + 1).drop_last() =~= match_views(ms@).take(i as int));
            assert(match_views(ms@).take(i + 1).last() == ms@[i as int]@);
        }
        match symbol_from_match(&ms[i], roles, src, file_name, file_path) {
            Some(cn) => {
                out.push(cn);
                proof {
                    assert(symbol_views(out@) =~= spec_symbols(
                        match_views(ms@).take(i + 1),
                        roles@,
                        src@,
                        file_name@,
                        file_path@,
                    ));
                }
            },
            None => {
                proof {
                    assert(symbol_views(out@) =~= spec_symbols(
                        match_views(ms@).take(i + 1),
                        roles@,
                        src@,
                        file_name@,
                        file_path@,
                    ));
                }
            },
        }
        i += 1;
    }
    proof {
        assert(match_views(ms@).take(ms@.len() as int) =~= match_views(ms@));
    }
    out
}

/// All capture rows of the matches are non-negative, as they are for every
/// record a pattern run produces.
pub open spec fn rows_nonneg(ms: Seq<MatchModel>) -> bool {
    forall|i: int, j: int|
        0 <= i < ms.len() && 0 <= j < ms[i].captures.len() ==> (#[trigger] ms[i].captures[j]).row
            >= 0
}

proof fn lemma_last_def_member(caps: Seq<CapModel>, roles: Seq<CapRole>)
    ensures
        last_def(caps, roles) matches Some(d) ==> exists|i: int|
            0 <= i < caps.len() && #[trigger] caps[i] == d.1,
    decreases caps.len(),
{
    if caps.len() > 0 {
        lemma_last_def_member(caps.drop_last(), roles);
        match last_def(caps, roles) {
            Some(d) => {
                if role_at(roles, caps.last().idx) matches CapRole::Def(_) {
                    assert(caps[caps.len() - 1] == d.1);
                } else {
                    let i = choose|i: int|
                        0 <= i < caps.drop_last().len() && #[trigger] caps.drop_last()[i] == d.1;
                    assert(caps[i] == d.1);
                }
            },
            None => {},
        }
    }
}

/// Every extracted symbol carries the qualified id built from its own name,
/// the source unit's path, a 1-based starting line, and a line range with
/// the end no earlier than the start.
pub proof fn lemma_spec_symbols_wf(
    ms: Seq<MatchModel>,
    roles: Seq<CapRole>,
    src: Seq<char>,
    file_name: Seq<char>,
    file_path: Seq<char>,
)
    requires
        rows_nonneg(ms),
    ensures
        forall|i: int|
            0 <= i < spec_symbols(ms, roles, src, file_name, file_path).len() ==> {
                let s = #[trigger] spec_symbols(ms, roles, src, file_name, file_path)[i];
                s.id == spec_qualified_id(file_name, s.name) && s.file == file_path && 1
                    <= s.line_start <= s.line_end
            },
    decreases ms.len(),
{
    if ms.len() > 0 {
        assert(rows_nonneg(ms.drop_last())) by {
            assert(forall|i: int| 0 <= i < ms.len() - 1 ==> ms.drop_last()[i] == ms[i]);
        }
        lemma_spec_symbols_wf(ms.drop_last(), roles, src, file_name, file_path);
        match symbol_of_match(ms.last(), roles, src, file_name, file_path) {
            Some(s) => {
                lemma_last_def_member(ms.last().captures, roles);
                let d = last_def(ms.last().captures, roles)->Some_0;
                let i = choose|i: int|
                    0 <= i < ms.last().captures.len() && #[trigger] ms.last().captures[i] == d.1;
                assert(ms[ms.len() - 1].captures[i].row >= 0);
            },
            None => {},
        }
    }
}

/// Extraction is a pure function of the recognized structure: two pattern
/// runs over an unchanged source unit that report the same matches extract
/// identical symbol and relation records.
pub proof fn lemma_extraction_idempotent(
    sm1: Seq<MatchModel>,
    sm2: Seq<MatchModel>,
    roles: Seq<CapRole>,
    syms: Seq<SymbolModel>,
    src: Seq<char>,
    file_name: Seq<char>,
    file_path: Seq<char>,
)
    requires
        sm1 == sm2,
    ensures
        spec_symbols(sm1, roles, src, file_name, file_path) == spec_symbols(
            sm2,
            roles,
            src,
            file_name,
            file_path,
        ),
        spec_imports(sm1, roles, file_path) == spec_imports(sm2, roles, file_path),
        spec_calls(sm1, roles, syms, file_path) == spec_calls(sm2, roles, syms, file_path),
{
}

/// Innermost-span attribution: when a call line has an enclosing symbol,
/// the chosen symbol contains the line and no containing symbol has a
/// strictly smaller line span — a call inside a method nested in a class
/// attributes to the method, not the class. When none is chosen, no symbol
/// contains the line.
pub proof fn lemma_enclosing_innermost(syms: Seq<SymbolModel>, line: int)
    ensures
        match spec_enclosing(syms, line) {
            Some(s) => encloses(s, line) && (exists|k: int|
                0 <= k < syms.len() && #[trigger] syms[k] == s) && forall|j: int|
                0 <= j < syms.len() && encloses(#[trigger] syms[j], line) ==> spec_span(s)
                    <= spec_span(syms[j]),
            None => forall|j: int| 0 <= j < syms.len() ==> !encloses(#[trigger] syms[j], line),
        },
    decreases syms.len(),
{
    if syms.len() > 0 {
        lemma_enclosing_innermost(syms.drop_last(), line);
        let d = syms.drop_last();
        assert(forall|j: int| 0 <= j < d.len() ==> d[j] == syms[j]);
        match spec_enclosing(syms, line) {
            Some(s) => {
                if s == syms.last() {
                    assert(syms[syms.len() - 1] == s);
                } else {
                    assert(spec_enclosing(d, line) == Some(s));
                    let k = choose|k: int| 0 <= k < d.len() && #[trigger] d[k] == s;
                    assert(syms[k] == s);
                }
            },
            None => {},
        }
    }
}

/// The last source-role capture of a match, if any.
pub open spec fn last_source(caps: Seq<CapModel>, roles: Seq<CapRole>) -> Option<CapModel>
    decreases caps.len(),
{
    if caps.len() == 0 {
        None
    } else if role_at(roles, caps.last().idx) == CapRole::Source {
        Some(caps.last())
    } else {
        last_source(caps.drop_last(), roles)
    }
}

/// The last callee-role capture of a match, if any.
pub open spec fn last_callee(caps: Seq<CapModel>, roles: Seq<CapRole>) -> Option<CapModel>
    decreases caps.len(),
{
    if caps.len() == 0 {
        None
    } else if role_at(roles, caps.last().idx) == CapRole::Callee {
        Some(caps.last())
    } else {
        last_callee(caps.drop_last(), roles)
    }
}

/// The import relation one match produces: from the file-level pseudo-id to
/// the quote-stripped module text.
pub open spec fn import_of_match(
    m: MatchModel,
    roles: Seq<CapRole>,
    file_path: Seq<char>,
) -> Option<RelationModel> {
    match last_source(m.captures, roles) {
        Some(c) => Some(
            RelationModel {
                from_id: spec_file_pseudo_id(file_path),
                to_name: spec_strip_quotes(c.text),
                kind: RelationType::Imports,
                line: rel_line(c.row),
            },
        ),
        None => None,
    }
}

/// The import relations of a sequence of matches, in match order.
pub open spec fn spec_imports(
    ms: Seq<MatchModel>,
    roles: Seq<CapRole>,
    file_path: Seq<char>,
) -> Seq<RelationModel>
    decreases ms.len(),
{
    if ms.len() == 0 {
        Seq::empty()
    } else {
        spec_imports(ms.drop_last(), roles, file_path) + (match import_of_match(
            ms.last(),
            roles,
            file_path,
        ) {
            Some(r) => seq![r],
            None => Seq::empty(),
        })
    }
}

fn import_from_match(m: &MatchRec, roles: &Vec<CapRole>, file_path: &str) -> (r: Option<
    SymbolRelation,
>)
    ensures
        match r {
            Some(rel) => import_of_match(m@, roles@, file_path@) == Some(rel@),
            None => import_of_match(m@, roles@, file_path@) is None,
        },
{
    let n = m.captures.len();
    let mut src_i: Option<usize> = None;
    let mut i: usize = 0;
    proof {
        assert(m@.captures.take(0) =~= Seq::<CapModel>::empty());
    }
    while i < n
        invariant
            n == m.captures@.len(),
            m@.captures.len() == n,
            i <= n,
            forall|j: int| 0 <= j < n ==> m@.captures[j] == m.captures@[j]@,
            match src_i {
                Some(j) => j < i && last_source(m@.captures.take(i as int), roles@) == Some(
                    m@.captures[j as int],
                ),
                None => last_source(m@.captures.take(i as int), roles@) is None,
            },
        decreases n - i,
    {
        let role = role_at_exec(roles, m.captures[i].idx);
        proof {
            assert(m@.captures.take(i + 1).drop_last() =~= m@.captures.take(i as int));
            assert(m@.captures.take(i + 1).last() == m@.captures[i as int]);
        }
        match role {
            CapRole::Source => {
                src_i = Some(i);
            },
            _ => {},
        }
        i += 1;
    }
    proof {
        assert(m@.captures.take(n as int) =~= m@.captures);
    }
    match src_i {
        Some(si) => {
            let c = &m.captures[si];
            let module = strip_quotes(c.text.as_str());
            Some(
                SymbolRelation {
                    from_id: file_pseudo_id(file_path),
                    to_name: module.to_owned(),
                    kind: RelationType::Imports,
                    line: rel_line_exec(c.row),
                },
            )
        },
        None => None,
    }
}

/// Extract the import relations of a pattern run, appending them in match
/// order.
pub fn extract_imports(
    ms: &Vec<MatchRec>,
    roles: &Vec<CapRole>,
    file_path: &str,
    relations: &mut Vec<SymbolRelation>,
)
    ensures
        relation_views(final(relations)@) == relation_views(old(relations)@) + spec_imports(
            match_views(ms@),
            roles@,
            file_path@,
        ),
{
    let mut i: usize = 0;
    proof {
        assert(match_views(ms@).take(0) =~= Seq::<MatchModel>::empty());
        assert(relation_views(relations@) =~= relation_views(relations@) + Seq::<
            RelationModel,
        >::empty());
    }
    while i < ms.len()
        invariant
            i <= ms@.len(),
            relation_views(relations@) == relation_views(old(relations)@) + spec_imports(
                match_views(ms@).take(i as int),
                roles@,
                file_path@,
            ),
        decreases ms@.len() - i,
    {
        proof {
            assert(match_views(ms@).take(i + 1).drop_last() =~= match_views(ms@).take(i as int));
            assert(match_views(ms@).take(i + 1).last() == ms@[i as int]@);
        }
        match import_from_match(&ms[i], roles, file_path) {
            Some(rel) => {
                let ghost prev = relations@;
                let ghost relm = rel@;
                relations.push(rel);
                proof {
                    assert(relation_views(prev.push(relations@[prev.len() as int]))
                        =~= relation_views(prev).push(relm));
                    assert(spec_imports(match_views(ms@).take(i + 1), roles@, file_path@)
                        =~= spec_imports(match_views(ms@).take(i as int), roles@, file_path@).push(
                        relm,
                    ));
                    assert(relation_views(relations@) =~= relation_views(old(relations)@)
                        + spec_imports(match_views(ms@).take(i + 1), roles@, file_path@));
                }
            },
            None => {
                proof {
                    assert(relation_views(relations@) =~= relation_views(old(relations)@)
                        + spec_imports(match_views(ms@).take(i + 1), roles@, file_path@));
                }
            },
        }
        i += 1;
    }
    proof {
        assert(match_views(ms@).take(ms@.len() as int) =~= match_views(ms@));
    }
}

/// The line span of a symbol, the measure of how tightly it encloses a
/// call.
pub open spec fn spec_span(s: SymbolModel) -> int {
    s.line_end - s.line_start
}

/// The symbol's line range contains the given line.
pub open spec fn encloses(s: SymbolModel, line: int) -> bool {
    s.line_start <= line && line <= s.line_end
}

/// The innermost symbol whose line range contains `line`: among the
/// containing symbols, the one with the smallest span, the earliest on a
/// tie; `None` when no symbol contains the line.
pub open spec fn spec_enclosing(syms: Seq<SymbolModel>, line: int) -> Option<SymbolModel>
    decreases syms.len(),
{
    if syms.len() == 0 {
        None
    } else {
        let rest = spec_enclosing(syms.drop_last(), line);
        let s = syms.last();
        if encloses(s, line) {
            match rest {
                None => Some(s),
                Some(b) => if spec_span(s) < spec_span(b) {
                    Some(s)
                } else {
                    Some(b)
                },
            }
        } else {
            rest
        }
    }
}

/// Find the innermost enclosing symbol of a call line: the containing
/// symbol with the smallest line span, the earliest on a tie.
pub fn find_enclosing_symbol(line: u32, symbols: &Vec<CodeNode>) -> (r: Option<usize>)
    ensures
        match r {
            Some(b) => b < symbols@.len() && spec_enclosing(symbol_views(symbols@), line as int)
                == Some(symbols@[b as int]@),
            None => spec_enclosing(symbol_views(symbols@), line as int) is None,
        },
{
    let mut best: Option<usize> = None;
    let mut i: usize = 0;
    proof {
        assert(symbol_views(symbols@).take(0) =~= Seq::<SymbolModel>::empty());
    }
    while i < symbols.len()
        invariant
            i <= symbols@.len(),
            match best {
                Some(b) => b < i && spec_enclosing(symbol_views(symbols@).take(i as int), line as int)
                    == Some(symbols@[b as int]@) && symbols@[b as int]@.line_start <= line as int
                    <= symbols@[b as int]@.line_end,
                None => spec_enclosing(symbol_views(symbols@).take(i as int), line as int) is None,
            },
        decreases symbols@.len() - i,
    {
        proof {
            assert(symbol_views(symbols@).take(i + 1).drop_last() =~= symbol_views(
                symbols@,
            ).take(i as int));
            assert(symbol_views(symbols@).take(i + 1).last() == symbols@[i as int]@);
        }
        let s = &symbols[i];
        if s.line_start as u64 <= line as u64 && line as u64 <= s.line_end as u64 {
            let span = s.line_end - s.line_start;
            match best {
                None => {
                    best = Some(i);
                },
                Some(b) => {
                    let bs = &symbols[b];
                    if span < bs.line_end - bs.line_start {
                        best = Some(i);
                    }
                },
            }
        }
        i += 1;
    }
    proof {
        assert(symbol_views(symbols@).take(symbols@.len() as int) =~= symbol_views(symbols@));
    }
    best
}

/// The call relation one match produces: from the innermost enclosing
/// symbol (or the file-level pseudo-id) to the last dot-separated segment
/// of the callee text.
pub open spec fn call_of_match(
    m: MatchModel,
    roles: Seq<CapRole>,
    syms: Seq<SymbolModel>,
    file_path: Seq<char>,
) -> Option<RelationModel> {
    match last_callee(m.captures, roles) {
        Some(c) => {
            let line = rel_line(c.row);
            Some(
                RelationModel {
                    from_id: match spec_enclosing(syms, line) {
                        Some(s) => s.id,
                        None => spec_file_pseudo_id(file_path),
                    },
                    to_name: spec_after_last(c.text, '.'),
                    kind: RelationType::Calls,
                    line: line,
                },
            )
        },
        None => None,
    }
}

/// The call relations of a sequence of matches, in match order.
pub open spec fn spec_calls(
    ms: Seq<MatchModel>,
    roles: Seq<CapRole>,
    syms: Seq<SymbolModel>,
    file_path: Seq<char>,
) -> Seq<RelationModel>
    decreases ms.len(),
{
    if ms.len() == 0 {
        Seq::empty()
    } else {
        spec_calls(ms.drop_last(), roles, syms, file_path) + (match call_of_match(
            ms.last(),
            roles,
            syms,
            file_path,
        ) {
            Some(r) => seq![r],
            None => Seq::empty(),
        })
    }
}

fn call_from_match(
    m: &MatchRec,
    roles: &Vec<CapRole>,
    symbols: &Vec<CodeNode>,
    file_path: &str,
) -> (r: Option<SymbolRelation>)
    ensures
        match r {
            Some(rel) => call_of_match(m@, roles@, symbol_views(symbols@), file_path@) == Some(
                rel@,
            ),
            None => call_of_match(m@, roles@, symbol_views(symbols@), file_path@) is None,
        },
{
    let n = m.captures.len();
    let mut callee_i: Option<usize> = None;
    let mut i: usize = 0;
    proof {
        assert(m@.captures.take(0) =~= Seq::<CapModel>::empty());
    }
    while i < n
        invariant
            n == m.captures@.len(),
            m@.captures.len() == n,
            i <= n,
            forall|j: int| 0 <= j < n ==> m@.captures[j] == m.captures@[j]@,
            match callee_i {
                Some(j) => j < i && last_callee(m@.captures.take(i as int), roles@) == Some(
                    m@.captures[j as int],
                ),
                None => last_callee(m@.captures.take(i as int), roles@) is None,
            },
        decreases n - i,
    {
        let role = role_at_exec(roles, m.captures[i].idx);
        proof {
            assert(m@.captures.take(i + 1).drop_last() =~= m@.captures.take(i as int));
            assert(m@.captures.take(i + 1).last() == m@.captures[i as int]);
        }
        match role {
            CapRole::Callee => {
                callee_i = Some(i);
            },
            _ => {},
        }
        i += 1;
    }
    proof {
        assert(m@.captures.take(n as int) =~= m@.captures);
    }
    match callee_i {
        Some(ci) => {
            let c = &m.captures[ci];
            let callee = after_last_char(c.text.as_str(), '.');
            let line = rel_line_exec(c.row);
            let from_id: String = match find_enclosing_symbol(line, symbols) {
                Some(b) => symbols[b].id.clone(),
                None => file_pseudo_id(file_path),
            };
            Some(
                SymbolRelation {
                    from_id,
                    to_name: callee.to_owned(),
                    kind: RelationType::Calls,
                    line,
                },
            )
        },
        None => None,
    }
}

/// Extract the call relations of a pattern run, appending them in match
/// order, each attributed to its innermost enclosing symbol.
pub fn extract_calls(
    ms: &Vec<MatchRec>,
    roles: &Vec<CapRole>,
    symbols: &Vec<CodeNode>,
    file_path: &str,
    relations: &mut Vec<SymbolRelation>,
)
    ensures
        relation_views(final(relations)@) == relation_views(old(relations)@) + spec_calls(
            match_views(ms@),
            roles@,
            symbol_views(symbols@),
            file_path@,
        ),
{
    let mut i: usize = 0;
    proof {
        assert(match_views(ms@).take(0) =~= Seq::<MatchModel>::empty());
        assert(relation_views(relations@) =~= relation_views(relations@) + Seq::<
            RelationModel,
        >::empty());
    }
    while i < ms.len()
        invariant
            i <= ms@.len(),
            relation_views(relations@) == relation_views(old(relations)@) + spec_calls(
                match_views(ms@).take(i as int),
                roles@,
                symbol_views(symbols@),
                file_path@,
            ),
        decreases ms@.len() - i,
    {
        proof {
            assert(match_views(ms@).take(i + 1).drop_last() =~= match_views(ms@).take(i as int));
            assert(match_views(ms@).take(i + 1).last() == ms@[i as int]@);
        }
        match call_from_match(&ms[i], roles, symbols, file_path) {
            Some(rel) => {
                let ghost prev = relations@;
                let ghost relm = rel@;
                relations.push(rel);
                proof {
                    assert(relation_views(prev.push(relations@[prev.len() as int]))
                        =~= relation_views(prev).push(relm));
                    assert(spec_calls(
                        match_views(ms@).take(i + 1),
                        roles@,
                        symbol_views(symbols@),
                        file_path@,
                    ) =~= spec_calls(
                        match_views(ms@).take(i as int),
                        roles@,
                        symbol_views(symbols@),
                        file_path@,
                    ).push(relm));
                    assert(relation_views(relations@) =~= relation_views(old(relations)@)
                        + spec_calls(
                        match_views(ms@).take(i + 1),
                        roles@,
                        symbol_views(symbols@),
                        file_path@,
                    ));
                }
            },
            None => {
                proof {
                    assert(relation_views(relations@) =~= relation_views(old(relations)@)
                        + spec_calls(
                        match_views(ms@).take(i + 1),
                        roles@,
                        symbol_views(symbols@),
                        file_path@,
                    ));
                }
            },
        }
        i += 1;
    }
    proof {
        assert(match_views(ms@).take(ms@.len() as int) =~= match_views(ms@));
    }
}

/// Extract all relations of a source unit: imports first, then calls.
pub fn extract_relations(
    imp_ms: &Vec<MatchRec>,
    imp_roles: &Vec<CapRole>,
    call_ms: &Vec<MatchRec>,
    call_roles: &Vec<CapRole>,
    symbols: &Vec<CodeNode>,
    file_path: &str,
) -> (r: Vec<SymbolRelation>)
    ensures
        relation_views(r@) == spec_imports(match_views(imp_ms@), imp_roles@, file_path@)
            + spec_calls(
            match_views(call_ms@),
            call_roles@,
            symbol_views(symbols@),
            file_path@,
        ),
{
    let mut relations: Vec<SymbolRelation> = Vec::new();
    proof {
        assert(relation_views(relations@) =~= Seq::<RelationModel>::empty());
    }
    extract_imports(imp_ms, imp_roles, file_path, &mut relations);
    extract_calls(call_ms, call_roles, symbols, file_path, &mut relations);
    proof {
        assert(Seq::<RelationModel>::empty() + spec_imports(
            match_views(imp_ms@),
            imp_roles@,
            file_path@,
        ) =~= spec_imports(match_views(imp_ms@), imp_roles@, file_path@));
    }
    relations
}

} // verus!
