//! The per-line extraction engine and its failure policy: each input line
//! yields either one serialized record or nothing, parse and resolution
//! failures count exactly once per line, and quiet mode forces both silence
//! and a successful exit.
use crate::format::{serialize_record, views_of, FormatType};
use crate::json::{
    all_resolve, extract_fields, is_string_at, json_parses, parse_doc, render_one, rendered_at,
    rendered_fields,
};
use vstd::prelude::*;

verus! {

/// The immutable per-run configuration of the extraction engine.
pub struct RunConfig {
    pub raw: bool,
    pub quiet: bool,
    pub verbose: u32,
    pub format: FormatType,
}

/// Raw mode is force-disabled under json-array output.
pub open spec fn effective_raw(cfg: RunConfig) -> bool {
    match cfg.format {
        FormatType::Json => false,
        _ => cfg.raw,
    }
}

/// Quiet mode forces the effective verbosity to zero for the whole run.
pub open spec fn effective_verbosity(cfg: RunConfig) -> u32 {
    if cfg.quiet {
        0
    } else {
        cfg.verbose
    }
}

/// What the engine does with one line of input.
pub enum LineOutcome {
    /// The line was empty: no output, no error.
    Skipped,
    /// The line failed to parse, or some pointer failed to resolve: no
    /// output, the error counter grows by one.
    Failed,
    /// Every pointer resolved: one record is emitted.
    Emitted,
}

/// The outcome one line must have under the given pointers.
pub open spec fn line_outcome(pointers: Seq<Seq<char>>, line: Seq<char>) -> LineOutcome {
    if line.len() == 0 {
        LineOutcome::Skipped
    } else if !json_parses(line) || !all_resolve(line, pointers) {
        LineOutcome::Failed
    } else {
        LineOutcome::Emitted
    }
}

/// The record an emitted line serializes to.
pub open spec fn line_record(pointers: Seq<Seq<char>>, cfg: RunConfig, line: Seq<char>) -> Seq<
    char,
> {
    serialize_record(rendered_fields(line, pointers, effective_raw(cfg)), cfg.format)
}

/// How many lines of an input fail: parse failures and unresolved-pointer
/// lines each count exactly once.
pub open spec fn run_errors(pointers: Seq<Seq<char>>, lines: Seq<Seq<char>>) -> int
    decreases lines.len(),
{
    if lines.len() == 0 {
        0
    } else {
        run_errors(pointers, lines.drop_last()) + match line_outcome(pointers, lines.last()) {
            LineOutcome::Failed => 1int,
            _ => 0int,
        }
    }
}

/// The records a whole input emits, in input order: one per emitted line,
/// none for skipped or failed lines.
pub open spec fn run_outputs(pointers: Seq<Seq<char>>, cfg: RunConfig, lines: Seq<Seq<char>>) -> Seq<
    Seq<char>,
>
    decreases lines.len(),
{
    if lines.len() == 0 {
        Seq::empty()
    } else {
        let rest = run_outputs(pointers, cfg, lines.drop_last());
        match line_outcome(pointers, lines.last()) {
            LineOutcome::Emitted => rest.push(line_record(pointers, cfg, lines.last())),
            _ => rest,
        }
    }
}

proof fn lemma_run_errors_bound(pointers: Seq<Seq<char>>, lines: Seq<Seq<char>>)
    ensures
        0 <= run_errors(pointers, lines) <= lines.len(),
    decreases lines.len(),
{
    if lines.len() > 0 {
        lemma_run_errors_bound(pointers, lines.drop_last());
    }
}

/// The extraction engine: a fixed pointer list and configuration, plus the
/// only mutable run state, the error counter.
pub struct Extractor {
    pub pointers: Vec<String>,
    pub config: RunConfig,
    pub errors: u64,
}

impl Extractor {
    /// An extractor needs at least one pointer.
    pub open spec fn wf(&self) -> bool {
        self.pointers@.len() >= 1
    }

    pub fn new(pointers: Vec<String>, config: RunConfig) -> (r: Extractor)
        requires
            pointers@.len() >= 1,
        ensures
            r.wf(),
            r.pointers == pointers,
            r.config == config,
            r.errors == 0,
    {
        Extractor { pointers, config, errors: 0 }
    }

    /// Turns one input line into zero or one output record. An empty line is
    /// skipped; a parse or resolution failure discards the whole line and
    /// counts exactly one error; otherwise every pointer's rendered value
    /// appears in the record, in pointer order.
    pub fn process_line(
        &mut self,
        parser: &mut simdjson_rust::dom::parser::Parser,
        line: &str,
    ) -> (r: Option<String>)
        requires
            old(self).wf(),
            old(self).errors < u64::MAX,
        ensures
            final(self).wf(),
            final(self).pointers == old(self).pointers,
            final(self).config == old(self).config,
            match line_outcome(views_of(old(self).pointers@), line@) {
                LineOutcome::Skipped => r is None && final(self).errors == old(self).errors,
                LineOutcome::Failed => r is None && final(self).errors == old(self).errors + 1,
                LineOutcome::Emitted => {
                    &&& r is Some
                    &&& r.unwrap()@ == line_record(
                        views_of(old(self).pointers@),
                        old(self).config,
                        line@,
                    )
                    &&& final(self).errors == old(self).errors
                },
            },
    {
        if line.unicode_len() == 0 {
            return None;
        }
        let drop_quotes = match self.config.format {
            FormatType::Json => false,
            _ => self.config.raw,
        };
        let doc_opt = parse_doc(parser, line);
        match doc_opt {
            None => {
                self.errors = self.errors + 1;
                None
            },
            Some(doc) => {
                match extract_fields(&doc, &self.pointers, drop_quotes) {
                    Ok(fields) => {
                        let out = crate::format::format_record(&fields, self.config.format);
                        Some(out)
                    },
                    Err(_) => {
                        self.errors = self.errors + 1;
                        None
                    },
                }
            },
        }
    }

    /// Processes a whole input: the records of the emitted lines, in input
    /// order, while the error counter grows by one per failed line.
    pub fn process_lines(
        &mut self,
        parser: &mut simdjson_rust::dom::parser::Parser,
        input: &Vec<String>,
    ) -> (r: Vec<String>)
        requires
            old(self).wf(),
            old(self).errors + input@.len() < u64::MAX,
        ensures
            final(self).wf(),
            final(self).pointers == old(self).pointers,
            final(self).config == old(self).config,
            final(self).errors == old(self).errors + run_errors(
                views_of(old(self).pointers@),
                views_of(input@),
            ),
            views_of(r@) == run_outputs(
                views_of(old(self).pointers@),
                old(self).config,
                views_of(input@),
            ),
    {
        let ghost ptrs = views_of(self.pointers@);
        let ghost cfg = self.config;
        let ghost all = views_of(input@);
        let mut out: Vec<String> = Vec::new();
        let mut i: usize = 0;
        while i < input.len()
            invariant
                i <= input@.len(),
                self.wf(),
                self.pointers == old(self).pointers,
                self.config == old(self).config,
                ptrs == views_of(self.pointers@),
                cfg == self.config,
                all == views_of(input@),
                all.len() == input@.len(),
                old(self).errors + input@.len() < u64::MAX,
                self.errors == old(self).errors + run_errors(ptrs, all.take(i as int)),
                run_errors(ptrs, all.take(i as int)) <= i,
                views_of(out@) == run_outputs(ptrs, cfg, all.take(i as int)),
            decreases input@.len() - i,
        {
            proof {
                lemma_run_errors_bound(ptrs, all.take(i as int));
            }
            let record = self.process_line(parser, input[i].as_str());
            proof {
                assert(all.take(i + 1) =~= all.take(i as int).push(all[i as int]));
                assert(all.take(i + 1).drop_last() =~= all.take(i as int));
                assert(all[i as int] == input@[i as int]@);
            }
            if let Some(line) = record {
                let ghost before = out@;
                out.push(line);
                proof {
                    assert(views_of(out@) =~= views_of(before).push(out@.last()@));
                }
            }
            i = i + 1;
        }
        proof {
            assert(all.take(input@.len() as int) =~= all);
        }
        out
    }

    /// Whether per-line diagnostics are to be printed: only above verbosity
    /// zero, and never when quiet.
    pub fn logs_diagnostics(&self) -> (r: bool)
        ensures
            r == (effective_verbosity(self.config) > 0),
    {
        !self.config.quiet && self.config.verbose > 0
    }

    /// The end-of-run result: success exactly when no line failed or quiet
    /// mode suppressed the errors.
    pub fn run_ok(&self) -> (r: bool)
        ensures
            r == (self.errors == 0 || self.config.quiet),
    {
        self.errors == 0 || self.config.quiet
    }

    /// Whether the end-of-run error summary is to be printed: only when
    /// errors occurred and quiet mode did not suppress them.
    pub fn reports_errors(&self) -> (r: bool)
        ensures
            r == (self.errors > 0 && !self.config.quiet),
    {
        self.errors > 0 && !self.config.quiet
    }
}

/// Law: raw mode strips exactly the first and the last character — the
/// enclosing quotes — from a string-typed value's minimal rendering.
pub proof fn lemma_raw_strips_one_char(doc: Seq<char>, ptr: Seq<char>)
    requires
        is_string_at(doc, ptr),
        rendered_at(doc, ptr).len() >= 2,
    ensures
        render_one(doc, ptr, true) == rendered_at(doc, ptr).drop_first().drop_last(),
        render_one(doc, ptr, true).len() == rendered_at(doc, ptr).len() - 2,
{
    assert(render_one(doc, ptr, true) =~= rendered_at(doc, ptr).drop_first().drop_last());
}

/// Law: raw mode has no effect at all under json-array output — the
/// serialized record is the same whatever the raw flag says.
pub proof fn lemma_raw_ignored_under_json(
    pointers: Seq<Seq<char>>,
    cfg: RunConfig,
    other: RunConfig,
    line: Seq<char>,
)
    requires
        cfg.format is Json,
        other == (RunConfig { raw: other.raw, ..cfg }),
    ensures
        line_record(pointers, cfg, line) == line_record(pointers, other, line),
{
    assert(effective_raw(cfg) == false);
    assert(effective_raw(other) == false);
}

/// Law: under json-array output the record is a bracketed, comma-joined
/// array whose elements are exactly the minimal renderings, never
/// unquoted, whatever the raw flag says.
pub proof fn lemma_json_array_shape(pointers: Seq<Seq<char>>, cfg: RunConfig, line: Seq<char>)
    requires
        cfg.format is Json,
    ensures
        line_record(pointers, cfg, line) == seq!['['] + crate::format::join_with(
            pointers.map_values(|p: Seq<char>| rendered_at(line, p)),
            ',',
        ) + seq![']'],
{
    assert(rendered_fields(line, pointers, effective_raw(cfg)) =~= pointers.map_values(
        |p: Seq<char>| rendered_at(line, p),
    ));
}

} // verus!
