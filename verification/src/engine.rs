//! The generation engine: evaluates a compiled statement list by weighted
//! random choice, recursive variable resolution and exclusion-bounded retry.
//!
//! What generation may return is captured by the relation
//! [`exprs_produce`]: any string handed back is an expansion of the chosen
//! generate expression in which every selected pattern had a positive
//! weight, and which its owning expression's exclusion matcher does not
//! reject.
use vstd::prelude::*;
use vstd::string::StrSliceExecFns;
use vstd::string::StringExecFns;

use crate::error::ErrorValue;
use crate::parser::{
    duplicate_patterns, lemma_patterns_deep_view, lemma_values_view_index, pattern_view,
    patterns_view, ExprV, Expression, ExtractMode, Pattern, PatternV, Statement, StmtV, Value,
    ValueV,
};
use crate::strutil::{contains_seq, contains_str, ends_with_str, starts_with_str, str_eq};

verus! {

/// The default bound on exclusion-driven resampling.
pub const DEFAULT_RETRY_COUNT: u32 = 100;

/// The bound on the depth of variable-reference chains during one
/// evaluation; a grammar that needs more (a reference cycle) fails cleanly
/// instead of recursing without end.
pub const EXPANSION_DEPTH_LIMIT: u32 = 1000;

/// A defined variable as the engine holds it: its destructuring bindings,
/// its expression, and the retry budget it evaluates under.
#[derive(Debug)]
pub struct VariableData {
    pub destruct_variables: Vec<(String, String)>,
    pub expression: Expression,
    pub retry_count: u32,
}

/// The mathematical shadow of [`VariableData`].
pub struct VarV {
    pub destructs: Seq<(Seq<char>, Seq<char>)>,
    pub expr: ExprV,
    pub retry: nat,
}

impl DeepView for VariableData {
    type V = VarV;

    open spec fn deep_view(&self) -> VarV {
        VarV {
            destructs: self.destruct_variables.deep_view(),
            expr: self.expression.deep_view(),
            retry: self.retry_count as nat,
        }
    }
}

/// Copies a destructuring-binding list, preserving its view.
fn duplicate_destructs(ds: &Vec<(String, String)>) -> (r: Vec<(String, String)>)
    ensures
        r.deep_view() =~= ds.deep_view(),
{
    let mut out: Vec<(String, String)> = Vec::new();
    let n = ds.len();
    let mut i: usize = 0;
    while i < n
        invariant
            0 <= i <= n,
            n == ds@.len(),
            out.deep_view().len() == i,
            forall|t: int| 0 <= t < i ==> out.deep_view()[t] == ds.deep_view()[t],
        decreases n - i,
    {
        let ghost out0 = out.deep_view();
        let pair = (ds[i].0.clone(), ds[i].1.clone());
        out.push(pair);
        proof {
            assert(out.deep_view() =~= out0.push(ds.deep_view()[i as int]));
        }
        i += 1;
    }
    out
}

impl VariableData {
    /// A variable entry copied from its parts.
    pub fn new(
        destruct_variables: &Vec<(String, String)>,
        expression: &Expression,
        retry_count: u32,
    ) -> (r: VariableData)
        ensures
            r.deep_view().destructs == destruct_variables.deep_view(),
            r.deep_view().expr == expression.deep_view(),
            r.retry_count == retry_count,
    {
        VariableData {
            destruct_variables: duplicate_destructs(destruct_variables),
            expression: expression.duplicate(),
            retry_count,
        }
    }

    /// A variable entry with no destructuring bindings.
    pub fn without_destruct(expression: &Expression, retry_count: u32) -> (r: VariableData)
        ensures
            r.deep_view().destructs == Seq::<(Seq<char>, Seq<char>)>::empty(),
            r.deep_view().expr == expression.deep_view(),
            r.retry_count == retry_count,
    {
        let empty: Vec<(String, String)> = Vec::new();
        proof {
            assert(empty.deep_view() =~= Seq::<(Seq<char>, Seq<char>)>::empty());
        }
        VariableData {
            destruct_variables: empty,
            expression: expression.duplicate(),
            retry_count,
        }
    }

    /// Copies the entry, preserving its view.
    pub fn duplicate(&self) -> (r: VariableData)
        ensures
            r.deep_view() == self.deep_view(),
    {
        VariableData {
            destruct_variables: duplicate_destructs(&self.destruct_variables),
            expression: self.expression.duplicate(),
            retry_count: self.retry_count,
        }
    }
}

/// The binding of `key` in the variable table: entries added later shadow
/// earlier ones, as repeated definitions of a name overwrite it.
pub open spec fn env_lookup(es: Seq<(Seq<char>, VarV)>, key: Seq<char>) -> Option<VarV>
    decreases es.len(),
{
    if es.len() == 0 {
        None
    } else if es.last().0 == key {
        Some(es.last().1)
    } else {
        env_lookup(es.drop_last(), key)
    }
}

/// Looks `key` up in the variable table.
fn env_get<'a>(env: &'a Vec<(String, VariableData)>, key: &str) -> (r: Option<&'a VariableData>)
    ensures
        match r {
            Some(d) => env_lookup(env.deep_view(), key@) == Some(d.deep_view()),
            None => env_lookup(env.deep_view(), key@) is None,
        },
{
    let n = env.len();
    let mut i: usize = n;
    proof {
        assert(env.deep_view().take(n as int) =~= env.deep_view());
    }
    while i > 0
        invariant
            0 <= i <= n,
            n == env@.len(),
            env_lookup(env.deep_view(), key@) == env_lookup(
                env.deep_view().take(i as int),
                key@,
            ),
        decreases i,
    {
        let idx = i - 1;
        proof {
            assert(env.deep_view().take(i as int).last() == env.deep_view()[idx as int]);
            assert(env.deep_view().take(i as int).drop_last() =~= env.deep_view().take(idx as int));
        }
        if str_eq(env[idx].0.as_str(), key) {
            return Some(&env[idx].1);
        }
        i = idx;
    }
    proof {
        assert(env.deep_view().take(0) =~= Seq::<(Seq<char>, VarV)>::empty());
    }
    None
}

/// The sum of the pattern weights.
pub open spec fn sum_counts(ps: Seq<PatternV>) -> nat
    decreases ps.len(),
{
    if ps.len() == 0 {
        0
    } else {
        sum_counts(ps.drop_last()) + ps.last().count
    }
}

proof fn lemma_sum_counts_bound(ps: Seq<PatternV>)
    requires
        forall|i: int| 0 <= i < ps.len() ==> (#[trigger] ps[i]).count <= usize::MAX,
    ensures
        sum_counts(ps) <= ps.len() * (usize::MAX as nat),
    decreases ps.len(),
{
    if ps.len() > 0 {
        assert(forall|i: int| 0 <= i < ps.len() - 1 ==> ps.drop_last()[i] == #[trigger] ps[i]);
        lemma_sum_counts_bound(ps.drop_last());
        assert((ps.len() - 1) * (usize::MAX as nat) + (usize::MAX as nat) == ps.len() * (
        usize::MAX as nat)) by (nonlinear_arith);
    }
}

proof fn lemma_sum_counts_prefix_le(ps: Seq<PatternV>, i: int)
    requires
        0 <= i <= ps.len(),
    ensures
        sum_counts(ps.take(i)) <= sum_counts(ps),
    decreases ps.len(),
{
    if i < ps.len() {
        assert(ps.drop_last().take(i) =~= ps.take(i));
        lemma_sum_counts_prefix_le(ps.drop_last(), i);
    } else {
        assert(ps.take(i) =~= ps);
    }
}

/// The weights of a pattern list fit in a double machine word.
proof fn lemma_sum_counts_fits(ps: Seq<PatternV>)
    requires
        forall|i: int| 0 <= i < ps.len() ==> (#[trigger] ps[i]).count <= usize::MAX,
        ps.len() <= usize::MAX,
    ensures
        sum_counts(ps) < u128::MAX,
{
    lemma_sum_counts_bound(ps);
    assert(ps.len() * (usize::MAX as nat) < u128::MAX) by (nonlinear_arith)
        requires
            ps.len() <= usize::MAX,
    ;
}

/// Sums the weights of the patterns.
fn sum_pattern_counts(patterns: &Vec<Pattern>) -> (r: u128)
    ensures
        r == sum_counts(patterns.deep_view()),
{
    let ghost pd = patterns.deep_view();
    let n = patterns.len();
    proof {
        assert(pd.len() == n);
        assert(forall|i: int| 0 <= i < pd.len() ==> (#[trigger] pd[i]).count <= usize::MAX) by {
            assert(forall|i: int|
                0 <= i < pd.len() ==> #[trigger] pd[i] == pattern_view(patterns@[i]));
        }
        lemma_sum_counts_fits(pd);
    }
    let mut sum: u128 = 0;
    let mut i: usize = 0;
    proof {
        assert(pd.take(0) =~= Seq::<PatternV>::empty());
    }
    while i < n
        invariant
            0 <= i <= n,
            n == patterns@.len(),
            pd == patterns.deep_view(),
            sum == sum_counts(pd.take(i as int)),
            sum_counts(pd) < u128::MAX,
            forall|t: int| 0 <= t < pd.len() ==> (#[trigger] pd[t]).count <= usize::MAX,
        decreases n - i,
    {
        proof {
            assert(pd.take(i + 1).drop_last() =~= pd.take(i as int));
            assert(pd.take(i + 1).last() == pd[i as int]);
            lemma_sum_counts_prefix_le(pd, i + 1);
        }
        sum = sum + (patterns[i].count as u128);
        i += 1;
    }
    proof {
        assert(pd.take(n as int) =~= pd);
    }
    sum
}

/// Relies on `rand::Rng::gen_range` over `rand::thread_rng`: a uniformly
/// distributed draw below `max`. Nothing but the bound is assumed of the
/// outcome.
#[verifier::external_body]
fn random_below(max: u128) -> (r: u128)
    requires
        max > 0,
    ensures
        r < max,
{
    rand::Rng::gen_range(&mut rand::thread_rng(), 0..max)
}

/// Selects the pattern whose cumulative weight range contains the drawn
/// value. A selected pattern always has a positive weight, and a draw below
/// the total weight always selects one.
fn select_pattern(patterns: &Vec<Pattern>, value: u128) -> (r: Option<usize>)
    ensures
        r matches Some(i) ==> i < patterns@.len() && patterns.deep_view()[i as int].count > 0,
        value < sum_counts(patterns.deep_view()) ==> r is Some,
{
    let ghost pd = patterns.deep_view();
    let n = patterns.len();
    proof {
        assert(pd.len() == n);
        assert(forall|i: int| 0 <= i < pd.len() ==> (#[trigger] pd[i]).count <= usize::MAX) by {
            assert(forall|i: int|
                0 <= i < pd.len() ==> #[trigger] pd[i] == pattern_view(patterns@[i]));
        }
        lemma_sum_counts_fits(pd);
        assert(pd.take(0) =~= Seq::<PatternV>::empty());
    }
    let mut sum: u128 = 0;
    let mut i: usize = 0;
    while i < n
        invariant
            0 <= i <= n,
            n == patterns@.len(),
            pd == patterns.deep_view(),
            sum == sum_counts(pd.take(i as int)),
            sum <= value,
            sum_counts(pd) < u128::MAX,
            forall|t: int| 0 <= t < pd.len() ==> (#[trigger] pd[t]).count <= usize::MAX,
        decreases n - i,
    {
        proof {
            assert(pd.take(i + 1).drop_last() =~= pd.take(i as int));
            assert(pd.take(i + 1).last() == pd[i as int]);
            lemma_sum_counts_prefix_le(pd, i + 1);
        }
        let next = sum + (patterns[i].count as u128);
        if value < next {
            return Some(i);
        }
        sum = next;
        i += 1;
    }
    proof {
        assert(pd.take(n as int) =~= pd);
    }
    None
}

// ------------------------------------------------------------------
// The exclusion matcher over compiled (literal) exclusion patterns.
// ------------------------------------------------------------------
/// The concatenated literal text of a compiled exclusion pattern's values;
/// non-literal values contribute nothing.
pub open spec fn concat_literals(vs: Seq<ValueV>) -> Seq<char>
    decreases vs.len(),
{
    if vs.len() == 0 {
        Seq::empty()
    } else {
        concat_literals(vs.drop_last()) + (match vs.last() {
            ValueV::Literal(s) => s,
            _ => Seq::empty(),
        })
    }
}

/// Whether one compiled exclusion pattern rejects the candidate, per its
/// anchoring mode.
pub open spec fn exclude_matches(p: PatternV, s: Seq<char>) -> bool {
    let t = concat_literals(p.values);
    match p.mode {
        ExtractMode::Unanchored => contains_seq(s, t),
        ExtractMode::Forward => t.is_prefix_of(s),
        ExtractMode::Backward => t.is_suffix_of(s),
        ExtractMode::Exact => s == t,
    }
}

/// Whether any exclusion pattern rejects the candidate.
pub open spec fn contains_excludes_spec(es: Seq<PatternV>, s: Seq<char>) -> bool {
    exists|i: int| 0 <= i < es.len() && exclude_matches(#[trigger] es[i], s)
}

/// Tests the candidate against every exclusion pattern.
fn contains_excludes(excludes: &Vec<Pattern>, result: &str) -> (r: bool)
    ensures
        r == contains_excludes_spec(excludes.deep_view(), result@),
{
    let n = excludes.len();
    let mut i: usize = 0;
    while i < n
        invariant
            0 <= i <= n,
            n == excludes@.len(),
            forall|t: int|
                0 <= t < i ==> !exclude_matches(#[trigger] excludes.deep_view()[t], result@),
        decreases n - i,
    {
        let pat = &excludes[i];
        let ghost patv = excludes.deep_view()[i as int];
        let mut check = String::new();
        let m = pat.values.len();
        let mut j: usize = 0;
        proof {
            lemma_values_view_index(pat.values@);
            assert(patv.values.take(0) =~= Seq::<ValueV>::empty());
        }
        while j < m
            invariant
                0 <= j <= m,
                m == pat.values@.len(),
                patv == excludes.deep_view()[i as int],
                patv.values.len() == m,
                forall|t: int|
                    0 <= t < m ==> #[trigger] patv.values[t] == pat.values@[t].deep_view(),
                check@ == concat_literals(patv.values.take(j as int)),
            decreases m - j,
        {
            proof {
                assert(patv.values.take(j + 1).drop_last() =~= patv.values.take(j as int));
                assert(patv.values.take(j + 1).last() == patv.values[j as int]);
            }
            match &pat.values[j] {
                Value::Literal(s) => {
                    check.append(s.as_str());
                },
                _ => {},
            }
            j += 1;
        }
        proof {
            assert(patv.values.take(m as int) =~= patv.values);
        }
        let hit = match pat.mode {
            ExtractMode::Unanchored => contains_str(result, check.as_str()),
            ExtractMode::Forward => starts_with_str(result, check.as_str()),
            ExtractMode::Backward => ends_with_str(result, check.as_str()),
            ExtractMode::Exact => str_eq(result, check.as_str()),
        };
        if hit {
            proof {
                assert(exclude_matches(excludes.deep_view()[i as int], result@));
            }
            return true;
        }
        i += 1;
    }
    false
}

// ------------------------------------------------------------------
// What an evaluation may produce, as a relation: random choice makes
// the result nondeterministic, so the contract says every returned
// string stands in this relation, whatever was drawn.
// ------------------------------------------------------------------
/// Values remaining from position `j` in a destructuring list.
pub open spec fn vals_rem(vs: Seq<ValueV>, j: int) -> nat {
    if j <= vs.len() {
        (vs.len() - j) as nat
    } else {
        0
    }
}

/// The environments reachable by resolving the first `j` destructuring
/// bindings: each bound name gets one positively weighted pattern of its
/// source variable, fixed for the remainder of the evaluation.
pub open spec fn destructs_ok(
    env: Seq<(Seq<char>, VarV)>,
    ds: Seq<(Seq<char>, Seq<char>)>,
    j: int,
    retry: nat,
    env2: Seq<(Seq<char>, VarV)>,
) -> bool
    decreases j,
{
    if j <= 0 {
        env2 == env
    } else if j > ds.len() {
        false
    } else {
        exists|env1: Seq<(Seq<char>, VarV)>, i: int|
            #![trigger env1.push(destruct_entry(env, ds[j - 1], i, retry))]
            {
                &&& destructs_ok(env, ds, j - 1, retry, env1)
                &&& destruct_choice_ok(env, ds[j - 1], i)
                &&& env2 == env1.push(destruct_entry(env, ds[j - 1], i, retry))
            }
    }
}

/// Whether pattern `i` is a legitimate fixed expansion choice for the
/// source variable of one destructuring binding: the source is defined and
/// the pattern carries a positive weight.
pub open spec fn destruct_choice_ok(
    env: Seq<(Seq<char>, VarV)>,
    binding: (Seq<char>, Seq<char>),
    i: int,
) -> bool {
    &&& env_lookup(env, binding.1) is Some
    &&& 0 <= i < env_lookup(env, binding.1)->Some_0.expr.patterns.len()
    &&& env_lookup(env, binding.1)->Some_0.expr.patterns[i].count > 0
}

/// The table entry that fixes choice `i` of the source variable for the
/// bound local name.
pub open spec fn destruct_entry(
    env: Seq<(Seq<char>, VarV)>,
    binding: (Seq<char>, Seq<char>),
    i: int,
    retry: nat,
) -> (Seq<char>, VarV) {
    let t = env_lookup(env, binding.1)->Some_0;
    (
        binding.0,
        VarV {
            destructs: t.destructs,
            expr: ExprV { patterns: seq![t.expr.patterns[i]], excludes: t.expr.excludes },
            retry: retry,
        },
    )
}

/// Whether evaluating an alternation with the given exclusion list can
/// produce `s`: some positively weighted pattern produces it, and no
/// exclusion pattern rejects it.
pub open spec fn exprs_produce(
    env: Seq<(Seq<char>, VarV)>,
    ps: Seq<PatternV>,
    excludes: Seq<PatternV>,
    s: Seq<char>,
    depth: nat,
) -> bool
    decreases depth, ps, 0nat, 3nat,
{
    &&& exists|i: int|
        0 <= i < ps.len() && (#[trigger] ps[i]).count > 0 && pattern_produces(env, ps[i], s, depth)
    &&& !contains_excludes_spec(excludes, s)
}

/// Whether evaluating one pattern can produce `s`: the concatenation of one
/// production of each of its values.
pub open spec fn pattern_produces(
    env: Seq<(Seq<char>, VarV)>,
    p: PatternV,
    s: Seq<char>,
    depth: nat,
) -> bool
    decreases depth, p, 0nat, 2nat,
{
    values_produce(env, p.values, 0, s, depth)
}

/// Whether the values from position `j` on can produce `s` by
/// concatenation.
pub open spec fn values_produce(
    env: Seq<(Seq<char>, VarV)>,
    vs: Seq<ValueV>,
    j: int,
    s: Seq<char>,
    depth: nat,
) -> bool
    decreases depth, vs, vals_rem(vs, j), 1nat,
{
    if j < 0 {
        false
    } else if j >= vs.len() {
        s == Seq::<char>::empty()
    } else {
        exists|k: int|
            #![trigger s.take(k)]
            0 <= k <= s.len() && value_produces(env, vs[j], s.take(k), depth)
                && values_produce(env, vs, j + 1, s.skip(k), depth)
    }
}

/// Whether one value can produce `s`: a literal produces its text; a
/// variable reference resolves its destructuring bindings and evaluates its
/// expression one level deeper; a nested group evaluates as an anonymous
/// alternation with no exclusions.
pub open spec fn value_produces(
    env: Seq<(Seq<char>, VarV)>,
    v: ValueV,
    s: Seq<char>,
    depth: nat,
) -> bool
    decreases depth, v, 0nat, 0nat,
{
    match v {
        ValueV::Literal(t) => s == t,
        ValueV::Variable(name) => {
            &&& depth > 0
            &&& env_lookup(env, name) is Some
            &&& {
                let data = env_lookup(env, name)->Some_0;
                exists|env2: Seq<(Seq<char>, VarV)>|
                    {
                        &&& #[trigger] destructs_ok(
                            env,
                            data.destructs,
                            data.destructs.len() as int,
                            data.retry,
                            env2,
                        )
                        &&& exprs_produce(
                            env2,
                            data.expr.patterns,
                            data.expr.excludes,
                            s,
                            (depth - 1) as nat,
                        )
                    }
            }
        },
        ValueV::Inner(ps) => exprs_produce(env, ps, Seq::empty(), s, depth),
    }
}

/// Prefixing one value's production onto a production of the remaining
/// values produces their concatenation.
proof fn lemma_values_produce_cons(
    env: Seq<(Seq<char>, VarV)>,
    vs: Seq<ValueV>,
    j: int,
    a: Seq<char>,
    b: Seq<char>,
    depth: nat,
)
    requires
        0 <= j < vs.len(),
        value_produces(env, vs[j], a, depth),
        values_produce(env, vs, j + 1, b, depth),
    ensures
        values_produce(env, vs, j, a + b, depth),
{
    let s = a + b;
    let k: int = a.len() as int;
    assert(s.take(k) =~= a);
    assert(s.skip(k) =~= b);
    assert(0 <= k <= s.len());
    assert(value_produces(env, vs[j], s.take(k), depth));
    assert(values_produce(env, vs, j + 1, s.skip(k), depth));
    assert(values_produce(env, vs, j, s, depth));
}

/// Fixing one more destructuring binding extends a reachable environment.
proof fn lemma_destructs_ok_step(
    env: Seq<(Seq<char>, VarV)>,
    ds: Seq<(Seq<char>, Seq<char>)>,
    j: int,
    retry: nat,
    env1: Seq<(Seq<char>, VarV)>,
    i: int,
    env2: Seq<(Seq<char>, VarV)>,
)
    requires
        0 <= j < ds.len(),
        destructs_ok(env, ds, j, retry, env1),
        destruct_choice_ok(env, ds[j], i),
        env2 == env1.push(destruct_entry(env, ds[j], i, retry)),
    ensures
        destructs_ok(env, ds, j + 1, retry, env2),
{
    assert(ds[(j + 1) - 1] == ds[j]);
    assert(destructs_ok(env, ds, (j + 1) - 1, retry, env1));
    assert(destruct_choice_ok(env, ds[(j + 1) - 1], i));
    assert(env2 == env1.push(destruct_entry(env, ds[(j + 1) - 1], i, retry)));
}

/// The errors evaluation can raise: an exhausted retry budget, an
/// unselectable all-zero alternation, an undefined variable, or an
/// overdeep reference chain. Lexical and syntactic errors never come out
/// of a generation run.
pub open spec fn is_runtime_error(e: ErrorValue) -> bool {
    ||| e is OverRetryCount
    ||| e is NotFoundPattern
    ||| e is NotFoundVariable
    ||| e is ErrorMessage
}

/// One destructuring binding whose source variable is defined and has a
/// positive total weight, so fixing a random expansion for it cannot fail.
pub open spec fn destruct_source_ok(
    env: Seq<(Seq<char>, VarV)>,
    binding: (Seq<char>, Seq<char>),
) -> bool {
    &&& env_lookup(env, binding.1) is Some
    &&& sum_counts(env_lookup(env, binding.1)->Some_0.expr.patterns) > 0
}

/// An alternation that cannot fail to evaluate: its total weight is
/// positive and every selectable pattern is generable.
pub open spec fn patterns_generable(
    env: Seq<(Seq<char>, VarV)>,
    ps: Seq<PatternV>,
    depth: nat,
) -> bool
    decreases depth, ps, 0nat, 3nat,
{
    &&& sum_counts(ps) > 0
    &&& forall|i: int|
        0 <= i < ps.len() && (#[trigger] ps[i]).count > 0 ==> pattern_generable(env, ps[i], depth)
}

/// A pattern that cannot fail to evaluate: each of its values is generable.
pub open spec fn pattern_generable(env: Seq<(Seq<char>, VarV)>, p: PatternV, depth: nat) -> bool
    decreases depth, p, 0nat, 2nat,
{
    forall|j: int| 0 <= j < p.values.len() ==> value_generable(env, #[trigger] p.values[j], depth)
}

/// A value that cannot fail to evaluate: a literal always does; a group is
/// generable as an alternation; a variable reference must be defined, carry
/// no exclusions, leave room in the depth budget, have resolvable
/// destructuring bindings, and be generable under every table those
/// bindings can reach.
pub open spec fn value_generable(env: Seq<(Seq<char>, VarV)>, v: ValueV, depth: nat) -> bool
    decreases depth, v, 0nat, 1nat,
{
    match v {
        ValueV::Literal(_) => true,
        ValueV::Inner(ps) => patterns_generable(env, ps, depth),
        ValueV::Variable(name) => {
            &&& depth > 0
            &&& env_lookup(env, name) is Some
            &&& {
                let data = env_lookup(env, name)->Some_0;
                &&& data.retry > 0
                &&& data.expr.excludes.len() == 0
                &&& forall|t: int|
                    0 <= t < data.destructs.len() ==> destruct_source_ok(
                        env,
                        #[trigger] data.destructs[t],
                    )
                &&& forall|env2: Seq<(Seq<char>, VarV)>|
                    #[trigger] destructs_ok(
                        env,
                        data.destructs,
                        data.destructs.len() as int,
                        data.retry,
                        env2,
                    ) ==> patterns_generable(env2, data.expr.patterns, (depth - 1) as nat)
            }
        },
    }
}

/// A pattern whose weight is zero is never selected: an alternation whose
/// patterns all carry weight zero produces no string at all.
pub proof fn lemma_zero_weights_produce_nothing(
    env: Seq<(Seq<char>, VarV)>,
    ps: Seq<PatternV>,
    excludes: Seq<PatternV>,
    s: Seq<char>,
    depth: nat,
)
    requires
        forall|i: int| 0 <= i < ps.len() ==> (#[trigger] ps[i]).count == 0,
    ensures
        !exprs_produce(env, ps, excludes, s, depth),
{
}

/// Resolves the destructuring bindings of a variable entry against the
/// global table: the new table extends a copy of the global one with one
/// fixed random expansion per bound name.
fn append_destruct_variables(
    data: &VariableData,
    global: &Vec<(String, VariableData)>,
) -> (r: Result<Vec<(String, VariableData)>, ErrorValue>)
    ensures
        r matches Ok(env2) ==> destructs_ok(
            global.deep_view(),
            data.deep_view().destructs,
            data.deep_view().destructs.len() as int,
            data.retry_count as nat,
            env2.deep_view(),
        ),
        (forall|t: int|
            0 <= t < data.deep_view().destructs.len() ==> destruct_source_ok(
                global.deep_view(),
                #[trigger] data.deep_view().destructs[t],
            )) ==> r is Ok,
        r matches Err(e) ==> is_runtime_error(e),
{
    let mut variables: Vec<(String, VariableData)> = Vec::new();
    let n = global.len();
    let mut i: usize = 0;
    while i < n
        invariant
            0 <= i <= n,
            n == global@.len(),
            variables.deep_view().len() == i,
            forall|t: int| 0 <= t < i ==> variables.deep_view()[t] == global.deep_view()[t],
        decreases n - i,
    {
        let ghost v0 = variables.deep_view();
        let entry = (global[i].0.clone(), global[i].1.duplicate());
        variables.push(entry);
        proof {
            assert(variables.deep_view() =~= v0.push(global.deep_view()[i as int]));
        }
        i += 1;
    }
    proof {
        assert(variables.deep_view() =~= global.deep_view());
    }
    let ghost globald = global.deep_view();
    let ghost dsd = data.deep_view().destructs;
    let m = data.destruct_variables.len();
    let mut j: usize = 0;
    while j < m
        invariant
            0 <= j <= m,
            m == data.destruct_variables@.len(),
            dsd == data.deep_view().destructs,
            dsd.len() == m,
            globald == global.deep_view(),
            destructs_ok(globald, dsd, j as int, data.retry_count as nat, variables.deep_view()),
        decreases m - j,
    {
        let key = &data.destruct_variables[j].0;
        let src = &data.destruct_variables[j].1;
        proof {
            assert(dsd[j as int] == (key@, src@));
        }
        let target = match env_get(global, src.as_str()) {
            Some(t) => t,
            None => {
                proof {
                    assert(!destruct_source_ok(globald, dsd[j as int]));
                }
                return Err(ErrorValue::NotFoundVariable(src.clone()));
            },
        };
        let max = sum_pattern_counts(&target.expression.patterns);
        if max == 0 {
            proof {
                lemma_patterns_deep_view(target.expression.patterns);
                assert(!destruct_source_ok(globald, dsd[j as int]));
            }
            return Err(ErrorValue::NotFoundPattern);
        }
        let value = random_below(max);
        let sel = match select_pattern(&target.expression.patterns, value) {
            Some(sel) => sel,
            None => {
                proof {
                    lemma_patterns_deep_view(target.expression.patterns);
                    assert(value < sum_counts(target.expression.patterns.deep_view()));
                }
                return Err(ErrorValue::NotFoundPattern);
            },
        };
        let pattern = target.expression.patterns[sel].duplicate();
        let mut pvec: Vec<Pattern> = Vec::new();
        let ghost patv = pattern.deep_view();
        pvec.push(pattern);
        let expression = Expression {
            patterns: pvec,
            excludes: duplicate_patterns(&target.expression.excludes),
        };
        let entry = VariableData {
            destruct_variables: duplicate_destructs(&target.destruct_variables),
            expression,
            retry_count: data.retry_count,
        };
        let ghost env1 = variables.deep_view();
        variables.push((key.clone(), entry));
        proof {
            let t = env_lookup(globald, src@)->Some_0;
            lemma_patterns_deep_view(target.expression.patterns);
            assert(t.expr.patterns[sel as int] == target.expression.patterns.deep_view()[
                sel as int]);
            assert(destruct_choice_ok(globald, dsd[j as int], sel as int));
            lemma_patterns_deep_view(entry.expression.patterns);
            lemma_patterns_deep_view(entry.expression.excludes);
            assert(entry.expression.patterns.deep_view() =~= seq![patv]);
            assert(entry.deep_view().expr.patterns =~= seq![t.expr.patterns[sel as int]]);
            lemma_patterns_deep_view(target.expression.excludes);
            assert(entry.deep_view().expr.excludes =~= t.expr.excludes);
            assert(entry.deep_view() == VarV {
                destructs: t.destructs,
                expr: ExprV {
                    patterns: seq![t.expr.patterns[sel as int]],
                    excludes: t.expr.excludes,
                },
                retry: data.retry_count as nat,
            });
            assert((key@, entry.deep_view()) == destruct_entry(
                globald,
                dsd[j as int],
                sel as int,
                data.retry_count as nat,
            ));
            assert(variables.deep_view() =~= env1.push((key@, entry.deep_view())));
            assert(variables.deep_view() == env1.push(
                destruct_entry(globald, dsd[j as int], sel as int, data.retry_count as nat),
            ));
            lemma_destructs_ok_step(
                globald,
                dsd,
                j as int,
                data.retry_count as nat,
                env1,
                sel as int,
                variables.deep_view(),
            );
        }
        j += 1;
    }
    Ok(variables)
}

/// Evaluates an alternation under an exclusion list: weighted random choice
/// among the patterns, with bounded resampling while the exclusion matcher
/// rejects the candidate.
///
/// Any `Ok` result stands in the [`exprs_produce`] relation. An exhausted
/// retry budget reports [`ErrorValue::OverRetryCount`]; a total weight of
/// zero, on which no pattern can ever be selected, reports
/// [`ErrorValue::NotFoundPattern`].
fn execute_patterns(
    patterns: &Vec<Pattern>,
    excludes: &Vec<Pattern>,
    variables: &Vec<(String, VariableData)>,
    retry_count: u32,
    depth: u32,
) -> (r: Result<String, ErrorValue>)
    ensures
        r matches Ok(s) ==> exprs_produce(
            variables.deep_view(),
            patterns.deep_view(),
            excludes.deep_view(),
            s@,
            depth as nat,
        ),
        retry_count == 0 ==> r == Err::<String, _>(ErrorValue::OverRetryCount),
        retry_count > 0 && sum_counts(patterns.deep_view()) == 0 ==> r == Err::<String, _>(
            ErrorValue::NotFoundPattern,
        ),
        retry_count > 0 && excludes.deep_view().len() == 0 && patterns_generable(
            variables.deep_view(),
            patterns.deep_view(),
            depth as nat,
        ) ==> r is Ok,
        r matches Err(e) ==> is_runtime_error(e),
    decreases depth, patterns, 0nat, 3nat,
{
    let ghost generable = retry_count > 0 && excludes.deep_view().len() == 0
        && patterns_generable(variables.deep_view(), patterns.deep_view(), depth as nat);
    let max = sum_pattern_counts(patterns);
    let mut count: u32 = 0;
    loop
        invariant
            0 <= count <= retry_count,
            max == sum_counts(patterns.deep_view()),
            count > 0 ==> max > 0,
            generable == (retry_count > 0 && excludes.deep_view().len() == 0
                && patterns_generable(
                variables.deep_view(),
                patterns.deep_view(),
                depth as nat,
            )),
            generable ==> count == 0,
        decreases retry_count - count,
    {
        if count >= retry_count {
            return Err(ErrorValue::OverRetryCount);
        }
        if max == 0 {
            return Err(ErrorValue::NotFoundPattern);
        }
        let value = random_below(max);
        let sel = match select_pattern(patterns, value) {
            Some(sel) => sel,
            None => {
                return Err(ErrorValue::NotFoundPattern);
            },
        };
        match execute_pattern(&patterns[sel], variables, retry_count, depth) {
            Err(e) => {
                proof {
                    if generable {
                        assert(pattern_generable(
                            variables.deep_view(),
                            patterns.deep_view()[sel as int],
                            depth as nat,
                        ));
                        assert(false);
                    }
                }
                return Err(e);
            },
            Ok(result) => {
                if !contains_excludes(excludes, result.as_str()) {
                    proof {
                        assert(patterns.deep_view()[sel as int].count > 0);
                        assert(pattern_produces(
                            variables.deep_view(),
                            patterns.deep_view()[sel as int],
                            result@,
                            depth as nat,
                        ));
                    }
                    return Ok(result);
                }
                proof {
                    if generable {
                        assert(!contains_excludes_spec(excludes.deep_view(), result@));
                        assert(false);
                    }
                }
            },
        }
        count += 1;
    }
}

/// Evaluates one pattern: the concatenation of the evaluation of each of
/// its values in order.
fn execute_pattern(
    pattern: &Pattern,
    variables: &Vec<(String, VariableData)>,
    retry_count: u32,
    depth: u32,
) -> (r: Result<String, ErrorValue>)
    ensures
        r matches Ok(s) ==> pattern_produces(
            variables.deep_view(),
            pattern.deep_view(),
            s@,
            depth as nat,
        ),
        retry_count > 0 && pattern_generable(variables.deep_view(), pattern.deep_view(), depth as nat)
            ==> r is Ok,
        r matches Err(e) ==> is_runtime_error(e),
    decreases depth, pattern, 0nat, 2nat,
{
    let ghost generable = retry_count > 0 && pattern_generable(
        variables.deep_view(),
        pattern.deep_view(),
        depth as nat,
    );
    let ghost env = variables.deep_view();
    let ghost vsd = pattern.deep_view().values;
    proof {
        lemma_values_view_index(pattern.values@);
    }
    let mut result = String::new();
    let n = pattern.values.len();
    let mut j: usize = 0;
    while j < n
        invariant
            0 <= j <= n,
            n == pattern.values@.len(),
            env == variables.deep_view(),
            vsd == pattern.deep_view().values,
            vsd.len() == n,
            generable == (retry_count > 0 && pattern_generable(
                variables.deep_view(),
                pattern.deep_view(),
                depth as nat,
            )),
            forall|t: int| 0 <= t < n ==> #[trigger] vsd[t] == pattern.values@[t].deep_view(),
            forall|rest: Seq<char>|
                #[trigger] values_produce(env, vsd, j as int, rest, depth as nat)
                    ==> values_produce(env, vsd, 0, result@ + rest, depth as nat),
        decreases n - j,
    {
        match execute_value(&pattern.values[j], variables, retry_count, depth) {
            Err(e) => {
                proof {
                    if generable {
                        assert(value_generable(env, vsd[j as int], depth as nat));
                        assert(false);
                    }
                }
                return Err(e);
            },
            Ok(piece) => {
                let ghost res0 = result@;
                result.append(piece.as_str());
                proof {
                    assert(value_produces(env, vsd[j as int], piece@, depth as nat));
                    assert forall|rest: Seq<char>|
                        #[trigger] values_produce(env, vsd, j + 1, rest, depth as nat)
                            implies values_produce(
                            env,
                            vsd,
                            0,
                            result@ + rest,
                            depth as nat,
                        ) by {
                        let merged = piece@ + rest;
                        lemma_values_produce_cons(
                            env,
                            vsd,
                            j as int,
                            piece@,
                            rest,
                            depth as nat,
                        );
                        assert(values_produce(env, vsd, j as int, merged, depth as nat));
                        assert(result@ + rest =~= res0 + merged);
                    }
                }
            },
        }
        j += 1;
    }
    proof {
        assert(values_produce(env, vsd, n as int, Seq::<char>::empty(), depth as nat));
        assert(result@ + Seq::<char>::empty() =~= result@);
        assert(values_produce(env, vsd, 0, result@, depth as nat));
    }
    Ok(result)
}

/// Evaluates one value: a literal yields its text; a variable reference
/// resolves its destructuring bindings and evaluates its expression one
/// level deeper, failing cleanly on an undefined name or a reference chain
/// deeper than [`EXPANSION_DEPTH_LIMIT`]; a nested group evaluates as an
/// anonymous alternation with no exclusions.
fn execute_value(
    value: &Value,
    variables: &Vec<(String, VariableData)>,
    retry_count: u32,
    depth: u32,
) -> (r: Result<String, ErrorValue>)
    ensures
        r matches Ok(s) ==> value_produces(
            variables.deep_view(),
            value.deep_view(),
            s@,
            depth as nat,
        ),
        retry_count > 0 && value_generable(variables.deep_view(), value.deep_view(), depth as nat)
            ==> r is Ok,
        r matches Err(e) ==> is_runtime_error(e),
    decreases depth, value, 0nat, 1nat,
{
    let ghost generable = retry_count > 0 && value_generable(
        variables.deep_view(),
        value.deep_view(),
        depth as nat,
    );
    match value {
        Value::Literal(val) => Ok(val.clone()),
        Value::Variable(key) => {
            if depth == 0 {
                return Err(
                    ErrorValue::ErrorMessage(
                        String::from_str("Variable expansion is too deep"),
                        None,
                    ),
                );
            }
            match env_get(variables, key.as_str()) {
                None => Err(ErrorValue::NotFoundVariable(key.clone())),
                Some(data) => {
                    match append_destruct_variables(data, variables) {
                        Err(e) => {
                            proof {
                                if generable {
                                    assert(false);
                                }
                            }
                            Err(e)
                        },
                        Ok(append_variables) => {
                            proof {
                                if generable {
                                    let dv = env_lookup(
                                        variables.deep_view(),
                                        key@,
                                    )->Some_0;
                                    assert(destructs_ok(
                                        variables.deep_view(),
                                        dv.destructs,
                                        dv.destructs.len() as int,
                                        dv.retry,
                                        append_variables.deep_view(),
                                    ));
                                    assert(patterns_generable(
                                        append_variables.deep_view(),
                                        dv.expr.patterns,
                                        (depth - 1) as nat,
                                    ));
                                    lemma_patterns_deep_view(data.expression.patterns);
                                    lemma_patterns_deep_view(data.expression.excludes);
                                    assert(data.expression.patterns.deep_view() =~= dv.expr.patterns);
                                    assert(data.expression.excludes.deep_view() =~= dv.expr.excludes);
                                }
                            }
                            let res = execute_patterns(
                                &data.expression.patterns,
                                &data.expression.excludes,
                                &append_variables,
                                data.retry_count,
                                depth - 1,
                            );
                            proof {
                                if res is Ok {
                                    let dv = data.deep_view();
                                    lemma_patterns_deep_view(data.expression.patterns);
                                    lemma_patterns_deep_view(data.expression.excludes);
                                    assert(dv.expr.patterns =~= data.expression.patterns.deep_view());
                                    assert(dv.expr.excludes =~= data.expression.excludes.deep_view());
                                    assert(exprs_produce(
                                        append_variables.deep_view(),
                                        dv.expr.patterns,
                                        dv.expr.excludes,
                                        res->Ok_0@,
                                        (depth - 1) as nat,
                                    ));
                                    let specdata = env_lookup(
                                        variables.deep_view(),
                                        key@,
                                    )->Some_0;
                                    assert(specdata == dv);
                                    assert(destructs_ok(
                                        variables.deep_view(),
                                        specdata.destructs,
                                        specdata.destructs.len() as int,
                                        specdata.retry,
                                        append_variables.deep_view(),
                                    ));
                                    assert(exprs_produce(
                                        append_variables.deep_view(),
                                        specdata.expr.patterns,
                                        specdata.expr.excludes,
                                        res->Ok_0@,
                                        (depth as nat - 1) as nat,
                                    ));
                                    assert(value.deep_view() == ValueV::Variable(key@));
                                    assert(value_produces(
                                        variables.deep_view(),
                                        value.deep_view(),
                                        res->Ok_0@,
                                        depth as nat,
                                    ));
                                }
                            }
                            res
                        },
                    }
                },
            }
        },
        Value::InnerPattern(patterns) => {
            let empty: Vec<Pattern> = Vec::new();
            proof {
                lemma_patterns_deep_view(*patterns);
                assert(patterns_view(patterns@) =~= patterns.deep_view());
                assert(empty.deep_view() =~= Seq::<PatternV>::empty());
            }
            let res = execute_patterns(patterns, &empty, variables, retry_count, depth);
            res
        },
    }
}

/// The statement index of the first generate statement at or after `k`, or
/// a negative number if there is none.
pub open spec fn first_gen_from(sts: Seq<StmtV>, k: int) -> int
    decreases vals_rem_stmts(sts, k),
{
    if k < 0 || k >= sts.len() {
        -1
    } else {
        match sts[k] {
            StmtV::Generate(_) => k,
            _ => first_gen_from(sts, k + 1),
        }
    }
}

/// Statements remaining from position `k`.
pub open spec fn vals_rem_stmts(sts: Seq<StmtV>, k: int) -> nat {
    if 0 <= k <= sts.len() {
        (sts.len() - k) as nat
    } else {
        0
    }
}

/// The variable table built from the definitions among the first `k`
/// statements, each evaluated under retry budget `retry`.
pub open spec fn stmts_env(sts: Seq<StmtV>, k: int, retry: nat) -> Seq<(Seq<char>, VarV)>
    decreases k,
{
    if k <= 0 {
        Seq::empty()
    } else if k > sts.len() {
        stmts_env(sts, sts.len() as int, retry)
    } else {
        let prev = stmts_env(sts, k - 1, retry);
        match sts[k - 1] {
            StmtV::Define(d) => prev.push(
                (d.name, VarV { destructs: d.destructs, expr: d.expr, retry: retry }),
            ),
            StmtV::Generate(_) => prev,
        }
    }
}

/// A statement list whose generation run cannot fail: either there is no
/// generate statement (the run yields the empty string), or the retry
/// budget is positive, the generate expression carries no exclusions, and
/// its alternation is generable under the table its definitions build.
pub open spec fn generation_certain(sts: Seq<StmtV>, retry: nat) -> bool {
    let g = first_gen_from(sts, 0);
    g >= 0 ==> {
        &&& retry > 0
        &&& sts[g]->Generate_0.excludes.len() == 0
        &&& patterns_generable(
            stmts_env(sts, g, retry),
            sts[g]->Generate_0.patterns,
            EXPANSION_DEPTH_LIMIT as nat,
        )
    }
}

proof fn lemma_first_gen_prefix(sts: Seq<StmtV>, k: int)
    requires
        0 <= k <= sts.len(),
        forall|t: int| 0 <= t < k ==> !(#[trigger] sts[t] is Generate),
    ensures
        first_gen_from(sts, 0) == first_gen_from(sts, k),
    decreases k,
{
    if k > 0 {
        lemma_first_gen_prefix(sts, k - 1);
    }
}

/// Evaluates a statement list: definitions fill the variable table in
/// order, and the first generate statement is evaluated against it. A list
/// with no generate statement yields the empty string.
pub fn execute(operators: &Vec<Statement>, retry_count: u32) -> (r: Result<String, ErrorValue>)
    ensures
        ({
            let sts = operators.deep_view();
            let g = first_gen_from(sts, 0);
            match r {
                Ok(s) => {
                    &&& (g < 0 ==> s@ == Seq::<char>::empty())
                    &&& (g >= 0 ==> exprs_produce(
                        stmts_env(sts, g, retry_count as nat),
                        sts[g]->Generate_0.patterns,
                        sts[g]->Generate_0.excludes,
                        s@,
                        EXPANSION_DEPTH_LIMIT as nat,
                    ))
                },
                Err(_) => g >= 0,
            }
        }),
        generation_certain(operators.deep_view(), retry_count as nat) ==> r is Ok,
        r matches Err(e) ==> is_runtime_error(e),
{
    let ghost sts = operators.deep_view();
    let mut variables: Vec<(String, VariableData)> = Vec::new();
    let n = operators.len();
    let mut k: usize = 0;
    proof {
        assert(variables.deep_view() =~= stmts_env(sts, 0, retry_count as nat));
    }
    while k < n
        invariant
            0 <= k <= n,
            n == operators@.len(),
            sts == operators.deep_view(),
            variables.deep_view() =~= stmts_env(sts, k as int, retry_count as nat),
            forall|t: int| 0 <= t < k ==> !(#[trigger] sts[t] is Generate),
        decreases n - k,
    {
        match &operators[k] {
            Statement::Define(d) => {
                let ghost v0 = variables.deep_view();
                let entry = VariableData::new(&d.destruct_variables, &d.expr, retry_count);
                variables.push((d.name.clone(), entry));
                proof {
                    let dv = sts[k as int]->Define_0;
                    assert(variables.deep_view() =~= v0.push(
                        (dv.name, VarV { destructs: dv.destructs, expr: dv.expr, retry: retry_count as nat }),
                    ));
                }
            },
            Statement::Generate(expr) => {
                let res = execute_patterns(
                    &expr.patterns,
                    &expr.excludes,
                    &variables,
                    retry_count,
                    EXPANSION_DEPTH_LIMIT,
                );
                proof {
                    lemma_first_gen_prefix(sts, k as int);
                    assert(first_gen_from(sts, 0) == k as int);
                    lemma_patterns_deep_view(expr.patterns);
                    lemma_patterns_deep_view(expr.excludes);
                    assert(sts[k as int]->Generate_0.patterns =~= expr.patterns.deep_view());
                    assert(sts[k as int]->Generate_0.excludes =~= expr.excludes.deep_view());
                }
                return res;
            },
        }
        k += 1;
    }
    proof {
        lemma_first_gen_prefix(sts, n as int);
        assert(first_gen_from(sts, 0) == -1);
    }
    Ok(String::new())
}

} // verus!
