//! The parser: compiled pattern cache plus the per-unit parse entry point.

use crate::extract::{
    extract_relations, extract_symbols, spec_calls, spec_imports, spec_symbols,
};
use crate::queries::{
    compile_python_queries, compile_rust_queries, compile_typescript_queries, CapRole,
    CompiledQueries,
};
use crate::sitter::{match_views, parser_new, parser_parse, parser_set_language, run_query,
    MatchModel};
use crate::symbols::{relation_views, symbol_views, ParseError, ParseResult};
use crate::text::{base_name, spec_base_name, spec_qualified_id, str_eq};
use vstd::prelude::*;
use vstd::string::StringExecFns;

verus! {

struct LangEntry {
    ext: String,
    queries: CompiledQueries,
}

/// `a` is a subsequence of `b`: its values occur in `b` in the same order,
/// each at its own position.
pub open spec fn subsequence_of<A>(a: Seq<A>, b: Seq<A>) -> bool
    decreases a.len(), b.len(),
{
    if a.len() == 0 {
        true
    } else if b.len() == 0 {
        false
    } else if a.last() == b.last() {
        subsequence_of(a.drop_last(), b.drop_last())
    } else {
        subsequence_of(a, b.drop_last())
    }
}

proof fn lemma_subseq_drop_last<A>(a: Seq<A>, b: Seq<A>)
    requires
        subsequence_of(a, b),
        a.len() > 0,
    ensures
        subsequence_of(a.drop_last(), b),
    decreases b.len(), 0int,
{
    if b.len() > 0 {
        if a.last() == b.last() {
            lemma_subseq_extend_b(a.drop_last(), b.drop_last(), b.last());
            assert(b.drop_last().push(b.last()) =~= b);
        } else {
            lemma_subseq_drop_last(a, b.drop_last());
            lemma_subseq_extend_b(a.drop_last(), b.drop_last(), b.last());
            assert(b.drop_last().push(b.last()) =~= b);
        }
    }
}

proof fn lemma_subseq_extend_b<A>(a: Seq<A>, b: Seq<A>, x: A)
    requires
        subsequence_of(a, b),
    ensures
        subsequence_of(a, b.push(x)),
    decreases b.len(), 1int,
{
    if a.len() > 0 {
        assert(b.push(x).last() == x);
        assert(b.push(x).drop_last() =~= b);
        if a.last() == x {
            lemma_subseq_drop_last(a, b);
        }
    }
}

/// The file-type tokens the pattern cache can hold, in the order they are
/// tried at construction.
pub open spec fn supported_exts() -> Seq<Seq<char>> {
    seq!["ts"@, "tsx"@, "js"@, "jsx"@, "rs"@, "py"@]
}

spec fn exts_of(s: Seq<LangEntry>) -> Seq<Seq<char>> {
    s.map_values(|e: LangEntry| e.ext@)
}

/// A code parser backed by tree-sitter structural patterns.
///
/// Construction compiles, for each supported language, three independent
/// pattern sets — symbols, imports, calls — and caches them by file-type
/// token. A language whose patterns fail to compile is left out; the others
/// stay available.
pub struct ArborParser {
    parser: tree_sitter::Parser,
    langs: Vec<LangEntry>,
}

impl ArborParser {
    /// The file-type tokens with a cached pattern set, in cache order.
    /// Lookups in [`ArborParser::parse_source`] succeed exactly for these
    /// tokens.
    pub closed spec fn cached_exts(&self) -> Seq<Seq<char>> {
        exts_of(self.langs@)
    }

    /// Create a parser with pattern sets compiled for TypeScript,
    /// JavaScript, Rust and Python file types. Compilation failures are
    /// isolated per language and never fail construction: the cache holds,
    /// in order and without repeats, those of the supported tokens whose
    /// three pattern sets compiled. That a given language's sets do
    /// compile cannot be promised — grammar compilation is an outside
    /// call.
    pub fn new() -> (p: ArborParser)
        ensures
            subsequence_of(p.cached_exts(), supported_exts()),
    {
        let parser = parser_new();
        let mut langs: Vec<LangEntry> = Vec::new();
        let ghost mut pfx: Seq<Seq<char>> = Seq::empty();
        proof {
            assert(exts_of(langs@) =~= Seq::<Seq<char>>::empty());
            assert(subsequence_of(exts_of(langs@), pfx));
        }
        match compile_typescript_queries() {
            Ok(q) => {
                let ghost prev = langs@;
                langs.push(LangEntry { ext: "ts".to_owned(), queries: q });
                proof {
                    assert(exts_of(langs@) =~= exts_of(prev).push("ts"@));
                    assert(exts_of(prev).push("ts"@).drop_last() =~= exts_of(prev));
                    assert(pfx.push("ts"@).drop_last() =~= pfx);
                    assert(subsequence_of(exts_of(langs@), pfx.push("ts"@)));
                }
            },
            Err(_) => {
                proof {
                    lemma_subseq_extend_b(exts_of(langs@), pfx, "ts"@);
                }
            },
        }
        proof {
            pfx = pfx.push("ts"@);
        }
        match compile_typescript_queries() {
            Ok(q) => {
                let ghost prev = langs@;
                langs.push(LangEntry { ext: "tsx".to_owned(), queries: q });
                proof {
                    assert(exts_of(langs@) =~= exts_of(prev).push("tsx"@));
                    assert(exts_of(prev).push("tsx"@).drop_last() =~= exts_of(prev));
                    assert(pfx.push("tsx"@).drop_last() =~= pfx);
                    assert(subsequence_of(exts_of(langs@), pfx.push("tsx"@)));
                }
            },
            Err(_) => {
                proof {
                    lemma_subseq_extend_b(exts_of(langs@), pfx, "tsx"@);
                }
            },
        }
        proof {
            pfx = pfx.push("tsx"@);
        }
        match compile_typescript_queries() {
            Ok(q) => {
                let ghost prev = langs@;
                langs.push(LangEntry { ext: "js".to_owned(), queries: q });
                proof {
                    assert(exts_of(langs@) =~= exts_of(prev).push("js"@));
                    assert(exts_of(prev).push("js"@).drop_last() =~= exts_of(prev));
                    assert(pfx.push("js"@).drop_last() =~= pfx);
                    assert(subsequence_of(exts_of(langs@), pfx.push("js"@)));
                }
            },
            Err(_) => {
                proof {
                    lemma_subseq_extend_b(exts_of(langs@), pfx, "js"@);
                }
            },
        }
        proof {
            pfx = pfx.push("js"@);
        }
        match compile_typescript_queries() {
            Ok(q) => {
                let ghost prev = langs@;
                langs.push(LangEntry { ext: "jsx".to_owned(), queries: q });
                proof {
                    assert(exts_of(langs@) =~= exts_of(prev).push("jsx"@));
                    assert(exts_of(prev).push("jsx"@).drop_last() =~= exts_of(prev));
                    assert(pfx.push("jsx"@).drop_last() =~= pfx);
                    assert(subsequence_of(exts_of(langs@), pfx.push("jsx"@)));
                }
            },
            Err(_) => {
                proof {
                    lemma_subseq_extend_b(exts_of(langs@), pfx, "jsx"@);
                }
            },
        }
        proof {
            pfx = pfx.push("jsx"@);
        }
        match compile_rust_queries() {
            Ok(q) => {
                let ghost prev = langs@;
                langs.push(LangEntry { ext: "rs".to_owned(), queries: q });
                proof {
                    assert(exts_of(langs@) =~= exts_of(prev).push("rs"@));
                    assert(exts_of(prev).push("rs"@).drop_last() =~= exts_of(prev));
                    assert(pfx.push("rs"@).drop_last() =~= pfx);
                    assert(subsequence_of(exts_of(langs@), pfx.push("rs"@)));
                }
            },
            Err(_) => {
                proof {
                    lemma_subseq_extend_b(exts_of(langs@), pfx, "rs"@);
                }
            },
        }
        proof {
            pfx = pfx.push("rs"@);
        }
        match compile_python_queries() {
            Ok(q) => {
                let ghost prev = langs@;
                langs.push(LangEntry { ext: "py".to_owned(), queries: q });
                proof {
                    assert(exts_of(langs@) =~= exts_of(prev).push("py"@));
                    assert(exts_of(prev).push("py"@).drop_last() =~= exts_of(prev));
                    assert(pfx.push("py"@).drop_last() =~= pfx);
                    assert(subsequence_of(exts_of(langs@), pfx.push("py"@)));
                }
            },
            Err(_) => {
                proof {
                    lemma_subseq_extend_b(exts_of(langs@), pfx, "py"@);
                }
            },
        }
        proof {
            pfx = pfx.push("py"@);
            assert(pfx =~= supported_exts());
        }
        ArborParser { parser, langs }
    }

    /// Parse source text directly, extracting symbols and relations.
    ///
    /// Fails only on empty input, a file type without compiled patterns, or
    /// a grammar that produced no tree; malformed source still parses and
    /// extraction proceeds over whatever structure was recognized. On
    /// success the records are exactly the extraction of the pattern runs:
    /// symbols in match order, then relations with imports before calls,
    /// each call attributed against the extracted symbols.
    pub fn parse_source(&mut self, source: &str, file_path: &str, language: &str) -> (r: Result<
        ParseResult,
        ParseError,
    >)
        ensures
            final(self).cached_exts() == old(self).cached_exts(),
            (source@.len() == 0) <==> (r matches Err(ParseError::EmptyFile(_))),
            r matches Err(ParseError::EmptyFile(p)) ==> p@ == file_path@,
            (r matches Err(ParseError::UnsupportedLanguage(_))) <==> (source@.len() > 0 && !old(
                self,
            ).cached_exts().contains(language@)),
            r matches Err(ParseError::UnsupportedLanguage(p)) ==> p@ == file_path@,
            r matches Ok(pr) ==> pr.file_path@ == file_path@
                && exists|
                sm: Seq<MatchModel>,
                sr: Seq<CapRole>,
                im: Seq<MatchModel>,
                ir: Seq<CapRole>,
                cm: Seq<MatchModel>,
                cr: Seq<CapRole>,
            |
                #![trigger spec_symbols(sm, sr, source@, spec_base_name(file_path@), file_path@),
                    spec_imports(im, ir, file_path@),
                    spec_calls(cm, cr, symbol_views(pr.symbols@), file_path@)]
                {
                    &&& spec_symbols(sm, sr, source@, spec_base_name(file_path@), file_path@)
                        == symbol_views(pr.symbols@)
                    &&& relation_views(pr.relations@) == spec_imports(im, ir, file_path@)
                        + spec_calls(cm, cr, symbol_views(pr.symbols@), file_path@)
                },
            r matches Ok(pr) ==> forall|i: int|
                0 <= i < pr.symbols@.len() ==> {
                    let s = (#[trigger] pr.symbols@[i])@;
                    s.id == spec_qualified_id(spec_base_name(file_path@), s.name) && s.file
                        == file_path@ && 1 <= s.line_start <= s.line_end
                },
    {
        if source.is_empty() {
            return Err(ParseError::EmptyFile(file_path.to_owned()));
        }
        let mut found: Option<usize> = None;
        let mut i: usize = 0;
        while i < self.langs.len()
            invariant
                i <= self.langs@.len(),
                *self == *old(self),
                match found {
                    Some(j) => j < self.langs@.len() && self.langs@[j as int].ext@ == language@,
                    None => forall|j: int| 0 <= j < i ==> self.langs@[j].ext@ != language@,
                },
            decreases self.langs@.len() - i,
        {
            if found.is_none() && str_eq(self.langs[i].ext.as_str(), language) {
                found = Some(i);
            }
            i += 1;
        }
        let li = match found {
            Some(j) => {
                proof {
                    assert(old(self).cached_exts()[j as int] == language@);
                }
                j
            },
            None => {
                proof {
                    assert(!old(self).cached_exts().contains(language@)) by {
                        if old(self).cached_exts().contains(language@) {
                            let j = choose|j: int|
                                0 <= j < old(self).cached_exts().len() && old(
                                    self,
                                ).cached_exts()[j] == language@;
                            assert(self.langs@[j].ext@ == language@);
                        }
                    }
                }
                return Err(ParseError::UnsupportedLanguage(file_path.to_owned()));
            },
        };
        proof {
            assert(old(self).cached_exts().contains(language@));
        }
        match parser_set_language(&mut self.parser, &self.langs[li].queries.language) {
            Ok(_) => {},
            Err(m) => {
                let mut msg = "failed to set language: ".to_owned();
                msg.append(m.as_str());
                return Err(ParseError::ParserError(msg));
            },
        }
        let tree = match parser_parse(&mut self.parser, source) {
            Some(t) => t,
            None => {
                return Err(ParseError::ParserError("no tree produced".to_owned()));
            },
        };
        let file_name = base_name(file_path);
        let cq = &self.langs[li].queries;
        let sym_ms = run_query(&cq.symbols.query, &tree, source);
        let imp_ms = run_query(&cq.imports.query, &tree, source);
        let call_ms = run_query(&cq.calls.query, &tree, source);
        let symbols = extract_symbols(&sym_ms, &cq.symbols.roles, source, file_name, file_path);
        let relations = extract_relations(
            &imp_ms,
            &cq.imports.roles,
            &call_ms,
            &cq.calls.roles,
            &symbols,
            file_path,
        );
        proof {
            assert(crate::extract::rows_nonneg(match_views(sym_ms@))) by {
                assert forall|i: int, j: int|
                    0 <= i < match_views(sym_ms@).len() && 0 <= j < match_views(
                        sym_ms@,
                    )[i].captures.len() implies (#[trigger] match_views(sym_ms@)[i].captures[j]).row
                    >= 0 by {
                    assert(match_views(sym_ms@)[i] == sym_ms@[i]@);
                    assert(sym_ms@[i]@.captures[j] == sym_ms@[i].captures@[j]@);
                }
            }
            crate::extract::lemma_spec_symbols_wf(
                match_views(sym_ms@),
                cq.symbols.roles@,
                source@,
                spec_base_name(file_path@),
                file_path@,
            );
            assert(spec_symbols(
                match_views(sym_ms@),
                cq.symbols.roles@,
                source@,
                spec_base_name(file_path@),
                file_path@,
            ) == symbol_views(symbols@));
            assert(relation_views(relations@) == spec_imports(
                match_views(imp_ms@),
                cq.imports.roles@,
                file_path@,
            ) + spec_calls(
                match_views(call_ms@),
                cq.calls.roles@,
                symbol_views(symbols@),
                file_path@,
            ));
            assert(forall|i: int|
                0 <= i < symbols@.len() ==> (#[trigger] symbols@[i])@ == symbol_views(
                    symbols@,
                )[i]);
        }
        Ok(ParseResult { symbols, relations, file_path: file_path.to_owned() })
    }
}

impl Default for ArborParser {
    fn default() -> Self {
        ArborParser::new()
    }
}

} // verus!
