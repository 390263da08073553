//! A compiler and evaluator for a small grammar notation describing weighted
//! random word generation: variables bind weighted alternations of literals,
//! variable references and nested groups, and a generate rule produces random
//! strings under exclusion constraints with a bounded retry budget.
use vstd::prelude::*;

pub mod engine;
pub mod error;
pub mod lexer;
pub mod parser;
pub mod strutil;

use crate::engine::{
    execute, exprs_produce, first_gen_from, generation_certain, is_runtime_error, stmts_env,
    DEFAULT_RETRY_COUNT, EXPANSION_DEPTH_LIMIT,
};
use crate::error::{ErrV, ErrorValue};
use crate::lexer::{lex_fragments_spec, lex_spec, lexer, lexer_by_vec};
use crate::parser::{parse, spec_parse, Statement, StmtV};

verus! {

/// What a successful generation run may return for a compiled statement
/// list: nothing but the empty string when there is no generate statement;
/// otherwise an expansion of the first generate statement's expression, with
/// every selected pattern positively weighted and the expression's own
/// exclusion matcher rejecting nothing of it.
pub open spec fn generation_ok(sts: Seq<StmtV>, retry: nat, s: Seq<char>) -> bool {
    let g = first_gen_from(sts, 0);
    &&& (g < 0 ==> s == Seq::<char>::empty())
    &&& (g >= 0 ==> exprs_produce(
        stmts_env(sts, g, retry),
        sts[g]->Generate_0.patterns,
        sts[g]->Generate_0.excludes,
        s,
        EXPANSION_DEPTH_LIMIT as nat,
    ))
}

/// Every string a generation run returns is an expansion of the generate
/// statement's weighted alternation: it is reachable by choosing, at each
/// alternation met during evaluation, one pattern of positive weight, and
/// concatenating the choices.
pub proof fn lemma_generated_string_is_expansion(sts: Seq<StmtV>, retry: nat, s: Seq<char>)
    requires
        generation_ok(sts, retry, s),
        first_gen_from(sts, 0) >= 0,
    ensures
        exprs_produce(
            stmts_env(sts, first_gen_from(sts, 0), retry),
            sts[first_gen_from(sts, 0)]->Generate_0.patterns,
            sts[first_gen_from(sts, 0)]->Generate_0.excludes,
            s,
            EXPANSION_DEPTH_LIMIT as nat,
        ),
{
}

/// Exclusion soundness: a string the generate statement's exclusion matcher
/// accepts (that is, rejects as a candidate) is never returned by a
/// generation run.
pub proof fn lemma_generated_never_excluded(sts: Seq<StmtV>, retry: nat, s: Seq<char>)
    requires
        generation_ok(sts, retry, s),
        first_gen_from(sts, 0) >= 0,
    ensures
        !crate::engine::contains_excludes_spec(sts[first_gen_from(sts, 0)]->Generate_0.excludes, s),
{
}

/// A compiled grammar: the parsed statement list, ready for any number of
/// generation runs.
#[derive(Debug)]
pub struct ZatlinData {
    statements: Vec<Statement>,
}

impl DeepView for ZatlinData {
    type V = Seq<StmtV>;

    closed spec fn deep_view(&self) -> Seq<StmtV> {
        self.statements.deep_view()
    }
}

impl ZatlinData {
    /// The compiled statement list.
    pub fn get_statements_ref(&self) -> (r: &Vec<Statement>)
        ensures
            r.deep_view() == self.deep_view(),
    {
        &self.statements
    }

    /// Compiles grammar text: tokenize, then parse.
    pub fn from_text(text: &str) -> (r: Result<ZatlinData, ErrorValue>)
        requires
            text@.len() < usize::MAX,
        ensures
            ({
                let s = spec_parse(lex_spec(text@));
                match r {
                    Ok(d) => s == Ok::<_, ErrV>(d.deep_view()),
                    Err(e) => s == Err::<Seq<StmtV>, _>(e.deep_view()),
                }
            }),
    {
        let tokens = lexer(text);
        match parse(&tokens) {
            Ok(statements) => Ok(ZatlinData { statements }),
            Err(e) => Err(e),
        }
    }

    /// Compiles a pre-split fragment list, as compile-time grammar embedding
    /// hands it over.
    pub fn from_fragments(values: Vec<&str>) -> (r: Result<ZatlinData, ErrorValue>)
        requires
            values@.len() < usize::MAX,
        ensures
            ({
                let s = spec_parse(lex_fragments_spec(values.deep_view()));
                match r {
                    Ok(d) => s == Ok::<_, ErrV>(d.deep_view()),
                    Err(e) => s == Err::<Seq<StmtV>, _>(e.deep_view()),
                }
            }),
    {
        let tokens = lexer_by_vec(values);
        match parse(&tokens) {
            Ok(statements) => Ok(ZatlinData { statements }),
            Err(e) => Err(e),
        }
    }
}

/// The generator: holds the exclusion retry budget and runs compilation and
/// generation.
#[derive(Debug)]
pub struct Zatlin {
    pub retry_count: u32,
}

impl Default for Zatlin {
    /// A generator with the default retry budget.
    fn default() -> (r: Zatlin)
        ensures
            r.retry_count == DEFAULT_RETRY_COUNT,
    {
        Zatlin { retry_count: DEFAULT_RETRY_COUNT }
    }
}

impl Zatlin {
    /// A generator with the given retry budget; zero selects the default.
    pub fn new(retry_count: u32) -> (r: Zatlin)
        ensures
            r.retry_count == if retry_count == 0 {
                DEFAULT_RETRY_COUNT
            } else {
                retry_count
            },
    {
        Zatlin {
            retry_count: if retry_count == 0 {
                DEFAULT_RETRY_COUNT
            } else {
                retry_count
            },
        }
    }

    /// Replaces the retry budget; zero selects the default.
    pub fn set_retry(&mut self, count: u32)
        ensures
            final(self).retry_count == if count < 1 {
                DEFAULT_RETRY_COUNT
            } else {
                count
            },
    {
        self.retry_count = if count < 1 {
            DEFAULT_RETRY_COUNT
        } else {
            count
        };
    }

    /// The current retry budget.
    pub fn get_retry(&self) -> (r: u32)
        ensures
            r == self.retry_count,
    {
        self.retry_count
    }

    /// Compiles the grammar text and produces one string from it.
    ///
    /// On a compilation failure the parse error comes back unchanged; a
    /// successful run returns a string the compiled grammar can produce
    /// ([`generation_ok`]), and generation errors arise only when the
    /// grammar has a generate statement.
    pub fn generate(&self, text: &str) -> (r: Result<String, ErrorValue>)
        requires
            text@.len() < usize::MAX,
        ensures
            ({
                let pr = spec_parse(lex_spec(text@));
                match r {
                    Ok(s) => pr is Ok && generation_ok(
                        pr->Ok_0,
                        self.retry_count as nat,
                        s@,
                    ),
                    Err(e) => match pr {
                        Err(pe) => e.deep_view() == pe,
                        Ok(sts) => first_gen_from(sts, 0) >= 0 && !generation_certain(
                            sts,
                            self.retry_count as nat,
                        ) && is_runtime_error(e),
                    },
                }
            }),
    {
        let data = match ZatlinData::from_text(text) {
            Ok(data) => data,
            Err(e) => {
                return Err(e);
            },
        };
        execute(data.get_statements_ref(), self.retry_count)
    }

    /// Produces one string from an already compiled grammar.
    pub fn generate_by(&self, data: &ZatlinData) -> (r: Result<String, ErrorValue>)
        ensures
            r matches Ok(s) ==> generation_ok(data.deep_view(), self.retry_count as nat, s@),
            r matches Err(e) ==> first_gen_from(data.deep_view(), 0) >= 0 && is_runtime_error(e),
            generation_certain(data.deep_view(), self.retry_count as nat) ==> r is Ok,
    {
        execute(data.get_statements_ref(), self.retry_count)
    }

    /// Compiles the grammar text and produces `count` independent strings.
    ///
    /// A compilation failure yields a single slot carrying the parse error;
    /// otherwise every draw is attempted, each slot reporting its own
    /// success or failure.
    pub fn generate_many(&self, text: &str, count: u32) -> (r: Vec<Result<String, ErrorValue>>)
        requires
            text@.len() < usize::MAX,
        ensures
            ({
                let pr = spec_parse(lex_spec(text@));
                match pr {
                    Err(pe) => r@.len() == 1 && (r@[0] matches Err(e) && e.deep_view() == pe),
                    Ok(sts) => r@.len() == count && forall|i: int|
                        0 <= i < count ==> match #[trigger] r@[i] {
                            Ok(s) => generation_ok(sts, self.retry_count as nat, s@),
                            Err(e) => first_gen_from(sts, 0) >= 0 && !generation_certain(
                                sts,
                                self.retry_count as nat,
                            ) && is_runtime_error(e),
                        },
                }
            }),
    {
        let data = match ZatlinData::from_text(text) {
            Ok(data) => data,
            Err(e) => {
                let mut out: Vec<Result<String, ErrorValue>> = Vec::new();
                out.push(Err(e));
                return out;
            },
        };
        self.generate_many_by(&data, count)
    }

    /// Produces `count` independent strings from an already compiled
    /// grammar.
    pub fn generate_many_by(&self, data: &ZatlinData, count: u32) -> (r: Vec<
        Result<String, ErrorValue>,
    >)
        ensures
            r@.len() == count,
            forall|i: int|
                0 <= i < count ==> match #[trigger] r@[i] {
                    Ok(s) => generation_ok(data.deep_view(), self.retry_count as nat, s@),
                    Err(e) => first_gen_from(data.deep_view(), 0) >= 0 && !generation_certain(
                        data.deep_view(),
                        self.retry_count as nat,
                    ) && is_runtime_error(e),
                },
    {
        let mut result: Vec<Result<String, ErrorValue>> = Vec::new();
        let mut i: u32 = 0;
        while i < count
            invariant
                0 <= i <= count,
                result@.len() == i,
                forall|t: int|
                    0 <= t < i ==> match #[trigger] result@[t] {
                        Ok(s) => generation_ok(data.deep_view(), self.retry_count as nat, s@),
                        Err(e) => first_gen_from(data.deep_view(), 0) >= 0 && !generation_certain(
                            data.deep_view(),
                            self.retry_count as nat,
                        ) && is_runtime_error(e),
                    },
            decreases count - i,
        {
            let one = execute(data.get_statements_ref(), self.retry_count);
            result.push(one);
            i += 1;
        }
        result
    }

    /// Compiles grammar text into a reusable statement list.
    pub fn create_data(text: &str) -> (r: Result<ZatlinData, ErrorValue>)
        requires
            text@.len() < usize::MAX,
        ensures
            ({
                let s = spec_parse(lex_spec(text@));
                match r {
                    Ok(d) => s == Ok::<_, ErrV>(d.deep_view()),
                    Err(e) => s == Err::<Seq<StmtV>, _>(e.deep_view()),
                }
            }),
    {
        ZatlinData::from_text(text)
    }
}

} // verus!
