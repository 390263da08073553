//! The statement and expression model, and the recursive-descent parser that
//! builds it from the token stream.
//!
//! The parser's contract is a complete functional mirror: every executable
//! parsing function returns exactly what its specification counterpart
//! (`spec_parse_*`) computes, so both the shape of the result and the exact
//! error, with its parse point and token index, are pinned down.
use vstd::prelude::*;
use vstd::string::StringExecFns;

use crate::error::{ErrV, ErrorValue};
use crate::lexer::{token_text, TokenType, TokenV};

verus! {

/// One statement of a grammar: a variable definition or the generate rule.
#[derive(Debug)]
pub enum Statement {
    /// Binds an identifier to an expression for later reference.
    Define(DefineStruct),
    /// Marks the expression whose evaluation produces the output.
    Generate(Expression),
}

/// A definition: a name, its destructuring bindings (local aliases that fix
/// one random expansion of a source variable), and the bound expression.
#[derive(Debug)]
pub struct DefineStruct {
    pub name: String,
    pub destruct_variables: Vec<(String, String)>,
    pub expr: Expression,
}

/// A weighted alternation of patterns plus an exclusion list.
///
/// After parsing, every exclusion pattern holds exactly one literal value:
/// nested groups have been expanded into flat alternatives.
#[derive(Debug)]
pub struct Expression {
    pub patterns: Vec<Pattern>,
    pub excludes: Vec<Pattern>,
}

/// An ordered concatenation of values with a selection weight, and, for
/// exclusion patterns, the anchoring mode.
#[derive(Debug)]
pub struct Pattern {
    pub values: Vec<Value>,
    pub count: usize,
    pub mode: ExtractMode,
}

/// How an exclusion pattern anchors on the candidate string.
#[derive(Debug, Clone, Copy, PartialEq, Eq, Structural)]
pub enum ExtractMode {
    /// Matches anywhere in the candidate.
    Unanchored,
    /// Matches at the start of the candidate.
    Forward,
    /// Matches at the end of the candidate.
    Backward,
    /// Matches the whole candidate.
    Exact,
}

/// One concatenated piece of a pattern.
#[derive(Debug)]
pub enum Value {
    /// Literal text.
    Literal(String),
    /// A reference to a defined variable.
    Variable(String),
    /// A parenthesized nested alternation.
    InnerPattern(Vec<Pattern>),
}

impl Pattern {
    /// A pattern of an ordinary alternation, with its weight.
    fn new(values: Vec<Value>, count: usize) -> (r: Pattern)
        ensures
            r.values == values,
            r.count == count,
            r.mode == ExtractMode::Unanchored,
    {
        Pattern { values, count, mode: ExtractMode::Unanchored }
    }

    /// A pattern of an exclusion list: weightless, with its anchoring mode.
    fn exclude_new(values: Vec<Value>, mode: ExtractMode) -> (r: Pattern)
        ensures
            r.values == values,
            r.count == 0,
            r.mode == mode,
    {
        Pattern { values, count: 0, mode }
    }
}

impl Value {
    /// Whether this value is a variable reference.
    pub fn is_variable(&self) -> (r: bool)
        ensures
            r == (self.deep_view() is Variable),
    {
        if let Value::Variable(_) = self {
            true
        } else {
            false
        }
    }
}

/// Copies a value list, preserving its view.
fn duplicate_values(vs: &Vec<Value>) -> (r: Vec<Value>)
    ensures
        r.deep_view() =~= vs.deep_view(),
    decreases vs, 1nat,
{
    let mut out: Vec<Value> = Vec::new();
    let n = vs.len();
    let mut i: usize = 0;
    while i < n
        invariant
            0 <= i <= n,
            n == vs@.len(),
            out.deep_view().len() == i,
            forall|t: int| 0 <= t < i ==> out.deep_view()[t] == vs.deep_view()[t],
        decreases n - i,
    {
        let ghost out0 = out.deep_view();
        let v = vs[i].duplicate();
        out.push(v);
        proof {
            assert(out.deep_view() =~= out0.push(vs.deep_view()[i as int]));
        }
        i += 1;
    }
    out
}

/// Copies a pattern list, preserving its view.
pub fn duplicate_patterns(ps: &Vec<Pattern>) -> (r: Vec<Pattern>)
    ensures
        r.deep_view() =~= ps.deep_view(),
    decreases ps, 3nat,
{
    let mut out: Vec<Pattern> = Vec::new();
    let n = ps.len();
    let mut i: usize = 0;
    while i < n
        invariant
            0 <= i <= n,
            n == ps@.len(),
            out.deep_view().len() == i,
            forall|t: int| 0 <= t < i ==> out.deep_view()[t] == ps.deep_view()[t],
        decreases n - i,
    {
        let ghost out0 = out.deep_view();
        let p = ps[i].duplicate();
        out.push(p);
        proof {
            assert(out.deep_view() =~= out0.push(ps.deep_view()[i as int]));
        }
        i += 1;
    }
    out
}

impl Value {
    /// Copies the value, preserving its view.
    pub fn duplicate(&self) -> (r: Value)
        ensures
            r.deep_view() == self.deep_view(),
        decreases self, 0nat,
    {
        match self {
            Value::Literal(s) => Value::Literal(s.clone()),
            Value::Variable(s) => Value::Variable(s.clone()),
            Value::InnerPattern(ps) => {
                let copied = duplicate_patterns(ps);
                proof {
                    lemma_patterns_deep_view(*ps);
                    lemma_patterns_deep_view(copied);
                }
                Value::InnerPattern(copied)
            },
        }
    }
}

impl Pattern {
    /// Copies the pattern, preserving its view.
    pub fn duplicate(&self) -> (r: Pattern)
        ensures
            r.deep_view() == self.deep_view(),
        decreases self, 2nat,
    {
        let values = duplicate_values(&self.values);
        proof {
            lemma_values_deep_view(self.values);
            lemma_values_deep_view(values);
        }
        Pattern { values, count: self.count, mode: self.mode }
    }
}

impl Expression {
    /// Copies the expression, preserving its view.
    pub fn duplicate(&self) -> (r: Expression)
        ensures
            r.deep_view() == self.deep_view(),
    {
        let patterns = duplicate_patterns(&self.patterns);
        let excludes = duplicate_patterns(&self.excludes);
        proof {
            lemma_patterns_deep_view(self.patterns);
            lemma_patterns_deep_view(self.excludes);
            lemma_patterns_deep_view(patterns);
            lemma_patterns_deep_view(excludes);
        }
        Expression { patterns, excludes }
    }
}

/// The mathematical shadow of [`Statement`].
pub enum StmtV {
    Define(DefineV),
    Generate(ExprV),
}

/// The mathematical shadow of [`DefineStruct`].
pub struct DefineV {
    pub name: Seq<char>,
    pub destructs: Seq<(Seq<char>, Seq<char>)>,
    pub expr: ExprV,
}

/// The mathematical shadow of [`Expression`].
pub struct ExprV {
    pub patterns: Seq<PatternV>,
    pub excludes: Seq<PatternV>,
}

/// The mathematical shadow of [`Pattern`].
pub struct PatternV {
    pub values: Seq<ValueV>,
    pub count: nat,
    pub mode: ExtractMode,
}

/// The mathematical shadow of [`Value`].
pub enum ValueV {
    Literal(Seq<char>),
    Variable(Seq<char>),
    Inner(Seq<PatternV>),
}

/// The view of one value.
pub open spec fn value_view(v: Value) -> ValueV
    decreases v,
{
    match v {
        Value::Literal(s) => ValueV::Literal(s@),
        Value::Variable(s) => ValueV::Variable(s@),
        Value::InnerPattern(ps) => ValueV::Inner(patterns_view(ps@)),
    }
}

/// The view of a sequence of values.
pub open spec fn values_view(vs: Seq<Value>) -> Seq<ValueV>
    decreases vs,
{
    if vs.len() == 0 {
        Seq::empty()
    } else {
        values_view(vs.drop_last()).push(value_view(vs.last()))
    }
}

/// The view of one pattern.
pub open spec fn pattern_view(p: Pattern) -> PatternV
    decreases p,
{
    PatternV { values: values_view(p.values@), count: p.count as nat, mode: p.mode }
}

/// The view of a sequence of patterns.
pub open spec fn patterns_view(ps: Seq<Pattern>) -> Seq<PatternV>
    decreases ps,
{
    if ps.len() == 0 {
        Seq::empty()
    } else {
        patterns_view(ps.drop_last()).push(pattern_view(ps.last()))
    }
}

impl DeepView for Value {
    type V = ValueV;

    open spec fn deep_view(&self) -> ValueV {
        value_view(*self)
    }
}

impl DeepView for Pattern {
    type V = PatternV;

    open spec fn deep_view(&self) -> PatternV {
        pattern_view(*self)
    }
}

impl DeepView for Expression {
    type V = ExprV;

    open spec fn deep_view(&self) -> ExprV {
        ExprV { patterns: patterns_view(self.patterns@), excludes: patterns_view(self.excludes@) }
    }
}

impl DeepView for DefineStruct {
    type V = DefineV;

    open spec fn deep_view(&self) -> DefineV {
        DefineV {
            name: self.name@,
            destructs: self.destruct_variables.deep_view(),
            expr: self.expr.deep_view(),
        }
    }
}

impl DeepView for Statement {
    type V = StmtV;

    open spec fn deep_view(&self) -> StmtV {
        match self {
            Statement::Define(d) => StmtV::Define(d.deep_view()),
            Statement::Generate(e) => StmtV::Generate(e.deep_view()),
        }
    }
}

/// `patterns_view` maps `pattern_view` over the elements.
pub proof fn lemma_patterns_view_index(ps: Seq<Pattern>)
    ensures
        patterns_view(ps).len() == ps.len(),
        forall|i: int| 0 <= i < ps.len() ==> #[trigger] patterns_view(ps)[i] == pattern_view(
            ps[i],
        ),
    decreases ps.len(),
{
    if ps.len() > 0 {
        lemma_patterns_view_index(ps.drop_last());
        assert(forall|i: int| 0 <= i < ps.len() - 1 ==> ps.drop_last()[i] == ps[i]);
    }
}

/// `values_view` maps `value_view` over the elements.
pub proof fn lemma_values_view_index(vs: Seq<Value>)
    ensures
        values_view(vs).len() == vs.len(),
        forall|i: int| 0 <= i < vs.len() ==> #[trigger] values_view(vs)[i] == value_view(vs[i]),
    decreases vs.len(),
{
    if vs.len() > 0 {
        lemma_values_view_index(vs.drop_last());
        assert(forall|i: int| 0 <= i < vs.len() - 1 ==> vs.drop_last()[i] == vs[i]);
    }
}

/// A `Vec<Pattern>`'s deep view and `patterns_view` of its elements agree.
pub proof fn lemma_patterns_deep_view(ps: Vec<Pattern>)
    ensures
        ps.deep_view() =~= patterns_view(ps@),
{
    lemma_patterns_view_index(ps@);
}

/// A `Vec<Value>`'s deep view and `values_view` of its elements agree.
pub proof fn lemma_values_deep_view(vs: Vec<Value>)
    ensures
        vs.deep_view() =~= values_view(vs@),
{
    lemma_values_view_index(vs@);
}

// ------------------------------------------------------------------
// Exclusion expansion: nested groups inside exclusion patterns are
// flattened into plain literal alternatives (a cross product of the
// concatenated choices), so the compiled matcher only ever checks
// literal strings.
// ------------------------------------------------------------------
/// The literal payloads of a value list, in order; non-literals contribute
/// nothing.
pub open spec fn value_literals(vs: Seq<ValueV>) -> Seq<Seq<char>>
    decreases vs.len(),
{
    if vs.len() == 0 {
        Seq::empty()
    } else {
        value_literals(vs.drop_last()) + (match vs.last() {
            ValueV::Literal(s) => seq![s],
            _ => Seq::empty(),
        })
    }
}

/// The literal payloads of every value of every pattern, in order.
pub open spec fn pattern_literals(ps: Seq<PatternV>) -> Seq<Seq<char>>
    decreases ps.len(),
{
    if ps.len() == 0 {
        Seq::empty()
    } else {
        pattern_literals(ps.drop_last()) + value_literals(ps.last().values)
    }
}

/// Concatenates every accumulated prefix with every choice, choices major:
/// for each choice in order, each prefix in order is extended by it.
pub open spec fn cross_concat(choices: Seq<Seq<char>>, acc: Seq<Seq<char>>) -> Seq<Seq<char>>
    decreases choices.len(),
{
    if choices.len() == 0 {
        Seq::empty()
    } else {
        cross_concat(choices.drop_last(), acc) + Seq::new(
            acc.len(),
            |k: int| acc[k] + choices.last(),
        )
    }
}

/// The expansion strings of the first `j` values of an exclusion pattern:
/// a literal extends every alternative; a nested group multiplies the
/// alternatives by each of its own expanded literals; a variable reference
/// contributes nothing (exclusions reject variables before this runs).
pub open spec fn expand_values(vs: Seq<ValueV>, j: nat) -> Seq<Seq<char>>
    decreases vs, j, 0nat,
{
    if j == 0 {
        seq![Seq::<char>::empty()]
    } else if j > vs.len() {
        Seq::empty()
    } else {
        let acc = expand_values(vs, (j - 1) as nat);
        match vs[j - 1] {
            ValueV::Literal(s) => Seq::new(acc.len(), |k: int| acc[k] + s),
            ValueV::Variable(_) => acc,
            ValueV::Inner(ips) => cross_concat(pattern_literals(expand_excludes(ips)), acc),
        }
    }
}

/// Expansion of one exclusion pattern: one weightless single-literal
/// pattern per expanded alternative, each keeping the anchoring mode, so
/// the whole exclusion list becomes a flat alternation of literals.
pub open spec fn expand_one(p: PatternV) -> Seq<PatternV>
    decreases p, 0nat, 1nat,
{
    expand_values(p.values, p.values.len()).map(
        |k: int, s: Seq<char>|
            PatternV { values: seq![ValueV::Literal(s)], count: 0, mode: p.mode },
    )
}

/// Expansion of a whole exclusion list, pattern by pattern.
pub open spec fn expand_excludes(ps: Seq<PatternV>) -> Seq<PatternV>
    decreases ps, 0nat, 2nat,
{
    if ps.len() == 0 {
        Seq::empty()
    } else {
        expand_excludes(ps.drop_last()) + expand_one(ps.last())
    }
}

// ------------------------------------------------------------------
// The specification of parsing: a functional mirror of the
// recursive-descent grammar, over token views. Each spec function
// returns either the parsed construct with the next token index, or
// the exact error.
// ------------------------------------------------------------------
/// Tokens remaining from position `i`.
pub open spec fn toks_rem(ts: Seq<TokenV>, i: int) -> nat {
    if i <= ts.len() {
        (ts.len() - i) as nat
    } else {
        0
    }
}

/// Clamps a returned index to guarantee progress past `i`; parsing always
/// moves forward, so on successful parses this is the identity.
pub open spec fn adv(i: int, j: int) -> int {
    if j > i {
        j
    } else {
        i + 1
    }
}

/// The first position binding `key` in a destructuring list, or a negative
/// number if the key is absent.
pub open spec fn find_key(ds: Seq<(Seq<char>, Seq<char>)>, key: Seq<char>) -> int
    decreases ds.len(),
{
    if ds.len() == 0 {
        -1
    } else if ds[0].0 == key {
        0
    } else {
        let r = find_key(ds.drop_first(), key);
        if r < 0 {
            -1
        } else {
            r + 1
        }
    }
}

/// Binds `key` to `src` in a destructuring list: an existing binding is
/// replaced in place, a new one is appended.
pub open spec fn destructs_insert(
    ds: Seq<(Seq<char>, Seq<char>)>,
    key: Seq<char>,
    src: Seq<char>,
) -> Seq<(Seq<char>, Seq<char>)> {
    let at = find_key(ds, key);
    if at >= 0 {
        ds.update(at, (key, src))
    } else {
        ds.push((key, src))
    }
}

/// One `local <- source` destructuring binding.
pub open spec fn spec_parse_local_variable(ts: Seq<TokenV>, i: int) -> Result<
    ((Seq<char>, Seq<char>), int),
    ErrV,
> {
    if i < ts.len() {
        match ts[i] {
            TokenV::Variable(local) => {
                if i + 1 < ts.len() {
                    match ts[i + 1] {
                        TokenV::LeftArrow => {
                            if i + 2 < ts.len() {
                                match ts[i + 2] {
                                    TokenV::Variable(src) => Ok(((local, src), i + 3)),
                                    t => Err(
                                        ErrV::InvalidToken(
                                            "local variable (from)"@,
                                            token_text(t),
                                            i + 2,
                                        ),
                                    ),
                                }
                            } else {
                                Err(ErrV::EndOfToken("local variable (from)"@, i + 2))
                            }
                        },
                        t => Err(ErrV::InvalidToken("local variable"@, token_text(t), i + 1)),
                    }
                } else {
                    Err(ErrV::EndOfToken("local variable"@, i + 1))
                }
            },
            t => Err(ErrV::InvalidToken("local variable (to)"@, token_text(t), i)),
        }
    } else {
        Err(ErrV::EndOfToken("local variable (to)"@, i))
    }
}

/// The bindings after the first one: a comma continues the list.
pub open spec fn spec_parse_lvars_rest(
    ts: Seq<TokenV>,
    i: int,
    acc: Seq<(Seq<char>, Seq<char>)>,
) -> Result<(Seq<(Seq<char>, Seq<char>)>, int), ErrV>
    decreases toks_rem(ts, i), 11nat,
{
    if i >= ts.len() {
        Err(ErrV::EndOfToken("local variables"@, i))
    } else if !(ts[i] is Comma) {
        Ok((acc, i))
    } else {
        match spec_parse_local_variable(ts, i + 1) {
            Ok(((key, src), j)) => spec_parse_lvars_rest(
                ts,
                adv(i, j),
                destructs_insert(acc, key, src),
            ),
            Err(_) => Err(
                ErrV::ErrorMessage("Next variable is nothing in local variables"@, Some(i + 1)),
            ),
        }
    }
}

/// The optional destructuring clause of a definition: absent before `=`,
/// otherwise a colon followed by comma-separated bindings.
pub open spec fn spec_parse_local_variables(ts: Seq<TokenV>, i: int) -> Result<
    (Seq<(Seq<char>, Seq<char>)>, int),
    ErrV,
>
    decreases toks_rem(ts, i), 12nat,
{
    if i < ts.len() && ts[i] is Equal {
        Ok((Seq::empty(), i))
    } else if i < ts.len() && !(ts[i] is Colon) {
        Err(ErrV::InvalidToken("local variables"@, token_text(ts[i]), i))
    } else {
        match spec_parse_local_variable(ts, i + 1) {
            Err(e) => Err(e),
            Ok(((key, src), j)) => spec_parse_lvars_rest(
                ts,
                adv(i, j),
                destructs_insert(Seq::empty(), key, src),
            ),
        }
    }
}

/// One value: a literal, a variable reference, or a parenthesized group.
pub open spec fn spec_parse_value(ts: Seq<TokenV>, i: int) -> Result<(ValueV, int), ErrV>
    decreases toks_rem(ts, i), 2nat,
{
    if i < ts.len() {
        match ts[i] {
            TokenV::Value(s) => Ok((ValueV::Literal(s), i + 1)),
            TokenV::Variable(s) => Ok((ValueV::Variable(s), i + 1)),
            TokenV::LeftCirc => spec_parse_inner_patterns(ts, i + 1),
            t => Err(ErrV::InvalidToken("value"@, token_text(t), i)),
        }
    } else {
        Err(ErrV::EndOfToken("value"@, i))
    }
}

/// Greedily parsed further values; stops (without error) at the first token
/// that does not start a value.
pub open spec fn spec_parse_values_rest(ts: Seq<TokenV>, i: int) -> (Seq<ValueV>, int)
    decreases toks_rem(ts, i), 3nat,
{
    if i >= ts.len() {
        (Seq::empty(), i)
    } else {
        match spec_parse_value(ts, i) {
            Ok((v, j)) => {
                let (rest, k) = spec_parse_values_rest(ts, adv(i, j));
                (seq![v] + rest, k)
            },
            Err(_) => (Seq::empty(), i),
        }
    }
}

/// One or more values.
pub open spec fn spec_parse_values(ts: Seq<TokenV>, i: int) -> Result<(Seq<ValueV>, int), ErrV>
    decreases toks_rem(ts, i), 4nat,
{
    match spec_parse_value(ts, i) {
        Err(e) => Err(e),
        Ok((v, j)) => {
            let (rest, k) = spec_parse_values_rest(ts, adv(i, j));
            Ok((seq![v] + rest, k))
        },
    }
}

/// One pattern: values with an optional trailing weight (default 1).
pub open spec fn spec_parse_pattern(ts: Seq<TokenV>, i: int) -> Result<(PatternV, int), ErrV>
    decreases toks_rem(ts, i), 5nat,
{
    match spec_parse_values(ts, i) {
        Err(e) => Err(e),
        Ok((vs, j)) => {
            if j < ts.len() {
                match ts[j] {
                    TokenV::Count(n) => Ok(
                        (PatternV { values: vs, count: n, mode: ExtractMode::Unanchored }, j + 1),
                    ),
                    _ => Ok((PatternV { values: vs, count: 1, mode: ExtractMode::Unanchored }, j)),
                }
            } else {
                Err(ErrV::EndOfToken("pattern"@, i))
            }
        },
    }
}

/// The alternatives after the first pattern; a bar must be followed by
/// another pattern.
pub open spec fn spec_parse_patterns_rest(ts: Seq<TokenV>, i: int, acc: Seq<PatternV>) -> Result<
    (Seq<PatternV>, int),
    ErrV,
>
    decreases toks_rem(ts, i), 6nat,
{
    if i >= ts.len() {
        Err(ErrV::EndOfToken("patterns"@, i))
    } else if !(ts[i] is Or) {
        Ok((acc, i))
    } else {
        match spec_parse_pattern(ts, i + 1) {
            Ok((p, j)) => spec_parse_patterns_rest(ts, adv(i + 1, j), acc.push(p)),
            Err(_) => Err(ErrV::ErrorMessage("Next pattern is nothing in patterns"@, Some(i + 1))),
        }
    }
}

/// One or more bar-separated patterns.
pub open spec fn spec_parse_patterns(ts: Seq<TokenV>, i: int) -> Result<(Seq<PatternV>, int), ErrV>
    decreases toks_rem(ts, i), 7nat,
{
    match spec_parse_pattern(ts, i) {
        Err(e) => Err(e),
        Ok((p, j)) => spec_parse_patterns_rest(ts, adv(i, j), seq![p]),
    }
}

/// A parenthesized nested alternation, after its opening parenthesis.
pub open spec fn spec_parse_inner_patterns(ts: Seq<TokenV>, i: int) -> Result<(ValueV, int), ErrV>
    decreases toks_rem(ts, i), 8nat,
{
    match spec_parse_patterns(ts, i) {
        Err(e) => Err(e),
        Ok((ps, j)) => {
            if j < ts.len() {
                if ts[j] is RightCirc {
                    Ok((ValueV::Inner(ps), j + 1))
                } else {
                    Err(ErrV::InvalidToken("inner patterns"@, token_text(ts[j]), i))
                }
            } else {
                Err(ErrV::EndOfToken("inner patterns"@, j))
            }
        },
    }
}

/// One exclusion value: a literal or a parenthesized group (variables are
/// structurally possible but rejected one level up).
pub open spec fn spec_parse_exclude_value(ts: Seq<TokenV>, i: int) -> Result<(ValueV, int), ErrV>
    decreases toks_rem(ts, i), 2nat,
{
    if i < ts.len() {
        match ts[i] {
            TokenV::Value(s) => Ok((ValueV::Literal(s), i + 1)),
            TokenV::LeftCirc => spec_parse_exclude_inner_patterns(ts, i + 1),
            t => Err(ErrV::InvalidToken("exclude value"@, token_text(t), i)),
        }
    } else {
        Err(ErrV::EndOfToken("exclude value"@, i))
    }
}

/// Greedily parsed further exclusion values.
pub open spec fn spec_parse_exclude_values_rest(ts: Seq<TokenV>, i: int) -> (Seq<ValueV>, int)
    decreases toks_rem(ts, i), 3nat,
{
    if i >= ts.len() {
        (Seq::empty(), i)
    } else {
        match spec_parse_exclude_value(ts, i) {
            Ok((v, j)) => {
                let (rest, k) = spec_parse_exclude_values_rest(ts, adv(i, j));
                (seq![v] + rest, k)
            },
            Err(_) => (Seq::empty(), i),
        }
    }
}

/// One or more exclusion values.
pub open spec fn spec_parse_exclude_values(ts: Seq<TokenV>, i: int) -> Result<
    (Seq<ValueV>, int),
    ErrV,
>
    decreases toks_rem(ts, i), 4nat,
{
    match spec_parse_exclude_value(ts, i) {
        Err(e) => Err(e),
        Ok((v, j)) => {
            let (rest, k) = spec_parse_exclude_values_rest(ts, adv(i, j));
            Ok((seq![v] + rest, k))
        },
    }
}

/// Whether some value in the list is a variable reference.
pub open spec fn has_variable(vs: Seq<ValueV>) -> bool {
    exists|k: int| 0 <= k < vs.len() && vs[k] is Variable
}

/// The anchoring mode from the two optional circumflex flags.
pub open spec fn mode_of(is_prefix: bool, is_postfix: bool) -> ExtractMode {
    if is_prefix && is_postfix {
        ExtractMode::Exact
    } else if is_prefix {
        ExtractMode::Forward
    } else if is_postfix {
        ExtractMode::Backward
    } else {
        ExtractMode::Unanchored
    }
}

/// One exclusion pattern: optional start anchor, values (no variables
/// allowed), optional end anchor.
pub open spec fn spec_parse_exclude_pattern(ts: Seq<TokenV>, i: int) -> Result<
    (PatternV, int),
    ErrV,
>
    decreases toks_rem(ts, i), 5nat,
{
    if i < ts.len() {
        let is_prefix = ts[i] is Circumflex;
        let i1 = if is_prefix {
            i + 1
        } else {
            i
        };
        match spec_parse_exclude_values(ts, i1) {
            Err(e) => Err(e),
            Ok((vs, j)) => {
                if has_variable(vs) {
                    Err(ErrV::ExcludeIncludeVariable)
                } else {
                    let is_postfix = j < ts.len() && ts[j] is Circumflex;
                    let j1 = if is_postfix {
                        j + 1
                    } else {
                        j
                    };
                    Ok(
                        (
                            PatternV {
                                values: vs,
                                count: 0,
                                mode: mode_of(is_prefix, is_postfix),
                            },
                            j1,
                        ),
                    )
                }
            },
        }
    } else {
        Err(ErrV::EndOfToken("exclude pattern (prefix)"@, i))
    }
}

/// The exclusion alternatives after the first; a bar not followed by another
/// exclusion pattern ends the list (the bar stays consumed).
pub open spec fn spec_parse_exclude_patterns_rest(
    ts: Seq<TokenV>,
    i: int,
    acc: Seq<PatternV>,
) -> Result<(Seq<PatternV>, int), ErrV>
    decreases toks_rem(ts, i), 6nat,
{
    if i >= ts.len() {
        Err(ErrV::EndOfToken("exclude patterns"@, i))
    } else if !(ts[i] is Or) {
        Ok((acc, i))
    } else {
        match spec_parse_exclude_pattern(ts, i + 1) {
            Ok((p, j)) => spec_parse_exclude_patterns_rest(ts, adv(i + 1, j), acc.push(p)),
            Err(_) => Ok((acc, i + 1)),
        }
    }
}

/// One or more bar-separated exclusion patterns.
pub open spec fn spec_parse_exclude_patterns(ts: Seq<TokenV>, i: int) -> Result<
    (Seq<PatternV>, int),
    ErrV,
>
    decreases toks_rem(ts, i), 7nat,
{
    match spec_parse_exclude_pattern(ts, i) {
        Err(e) => Err(e),
        Ok((p, j)) => spec_parse_exclude_patterns_rest(ts, adv(i, j), seq![p]),
    }
}

/// A parenthesized group inside an exclusion, after its opening parenthesis.
pub open spec fn spec_parse_exclude_inner_patterns(ts: Seq<TokenV>, i: int) -> Result<
    (ValueV, int),
    ErrV,
>
    decreases toks_rem(ts, i), 8nat,
{
    match spec_parse_exclude_patterns(ts, i) {
        Err(e) => Err(e),
        Ok((ps, j)) => {
            if j < ts.len() {
                if ts[j] is RightCirc {
                    Ok((ValueV::Inner(ps), j + 1))
                } else {
                    Err(ErrV::InvalidToken("exclude inner patterns"@, token_text(ts[j]), i))
                }
            } else {
                Err(ErrV::EndOfToken("exclude inner patterns"@, j))
            }
        },
    }
}

/// A whole expression: patterns, optionally followed by `-` and exclusion
/// patterns, whose nested groups are expanded into literal alternatives.
pub open spec fn spec_parse_expression(ts: Seq<TokenV>, i: int) -> Result<(ExprV, int), ErrV>
    decreases toks_rem(ts, i), 9nat,
{
    match spec_parse_patterns(ts, i) {
        Err(e) => Err(e),
        Ok((ps, j)) => {
            if j < ts.len() && ts[j] is Minus {
                match spec_parse_exclude_patterns(ts, adv(i, j + 1)) {
                    Err(e) => Err(e),
                    Ok((es, k)) => Ok(
                        (ExprV { patterns: ps, excludes: expand_excludes(es) }, k),
                    ),
                }
            } else {
                Ok((ExprV { patterns: ps, excludes: expand_excludes(Seq::empty()) }, j))
            }
        },
    }
}

/// A definition after its name: optional destructuring clause, `=`,
/// expression, then `;` or a line break. The diagnostic index of the
/// structural errors is the position right after the name.
pub open spec fn spec_parse_define(ts: Seq<TokenV>, name: Seq<char>, i: int) -> Result<
    (StmtV, int),
    ErrV,
>
    decreases toks_rem(ts, i), 13nat,
{
    match spec_parse_local_variables(ts, i) {
        Err(e) => Err(e),
        Ok((lv, j)) => {
            if j < ts.len() {
                if ts[j] is Equal {
                    match spec_parse_expression(ts, adv(i, j + 1)) {
                        Err(e) => Err(e),
                        Ok((expr, k)) => {
                            if k < ts.len() {
                                if ts[k] is Semicolon || ts[k] is NewLine {
                                    Ok(
                                        (
                                            StmtV::Define(
                                                DefineV { name: name, destructs: lv, expr: expr },
                                            ),
                                            k + 1,
                                        ),
                                    )
                                } else {
                                    Err(
                                        ErrV::InvalidToken(
                                            "expression of define variable"@,
                                            token_text(ts[k]),
                                            i,
                                        ),
                                    )
                                }
                            } else {
                                Err(ErrV::EndOfToken("expression of define variable"@, i))
                            }
                        },
                    }
                } else {
                    Err(ErrV::InvalidToken("define variable"@, token_text(ts[j]), i))
                }
            } else {
                Err(ErrV::EndOfToken("define variable"@, i))
            }
        },
    }
}

/// A generate statement after its `%`: an expression, then a mandatory `;`
/// (a line break deliberately does not end a generate statement).
pub open spec fn spec_parse_generate(ts: Seq<TokenV>, i: int) -> Result<(StmtV, int), ErrV>
    decreases toks_rem(ts, i), 13nat,
{
    match spec_parse_expression(ts, i) {
        Err(e) => Err(e),
        Ok((expr, j)) => {
            if j < ts.len() {
                if ts[j] is Semicolon {
                    Ok((StmtV::Generate(expr), j + 1))
                } else {
                    Err(ErrV::InvalidToken("generate"@, token_text(ts[j]), j))
                }
            } else {
                Err(ErrV::EndOfToken("generate"@, j))
            }
        },
    }
}

/// The statement list from position `i`: identifiers start definitions,
/// `%` starts the generate statement, stray line breaks are skipped, and
/// any other token is an error.
pub open spec fn spec_parse_stmts(ts: Seq<TokenV>, i: int) -> Result<Seq<StmtV>, ErrV>
    decreases toks_rem(ts, i), 14nat,
{
    if i >= ts.len() {
        Ok(Seq::empty())
    } else {
        match ts[i] {
            TokenV::Variable(name) => match spec_parse_define(ts, name, i + 1) {
                Err(e) => Err(e),
                Ok((st, j)) => match spec_parse_stmts(ts, adv(i, j)) {
                    Err(e) => Err(e),
                    Ok(rest) => Ok(seq![st] + rest),
                },
            },
            TokenV::Percent => match spec_parse_generate(ts, i + 1) {
                Err(e) => Err(e),
                Ok((st, j)) => match spec_parse_stmts(ts, adv(i, j)) {
                    Err(e) => Err(e),
                    Ok(rest) => Ok(seq![st] + rest),
                },
            },
            TokenV::Unknown(s) => Err(ErrV::UnknownToken(s, i)),
            TokenV::NewLine => spec_parse_stmts(ts, i + 1),
            t => Err(ErrV::InvalidToken("statement"@, token_text(t), i)),
        }
    }
}

/// The parse of a whole token stream.
pub open spec fn spec_parse(ts: Seq<TokenV>) -> Result<Seq<StmtV>, ErrV> {
    spec_parse_stmts(ts, 0)
}

// ------------------------------------------------------------------
// Progress: every successful parse consumes at least one token and never
// runs past the end, so the clamped indices above are the identity in
// every reachable case.
// ------------------------------------------------------------------
proof fn lemma_value_next(ts: Seq<TokenV>, i: int)
    ensures
        spec_parse_value(ts, i) matches Ok((v, j)) ==> i < j <= ts.len(),
    decreases toks_rem(ts, i), 2nat,
{
    if i < ts.len() && ts[i] is LeftCirc {
        lemma_inner_patterns_next(ts, i + 1);
    }
}

proof fn lemma_values_rest_next(ts: Seq<TokenV>, i: int)
    ensures
        spec_parse_values_rest(ts, i).1 >= i,
        i <= ts.len() ==> spec_parse_values_rest(ts, i).1 <= ts.len(),
    decreases toks_rem(ts, i), 3nat,
{
    if i < ts.len() {
        lemma_value_next(ts, i);
        if spec_parse_value(ts, i) is Ok {
            let (v, j) = spec_parse_value(ts, i)->Ok_0;
            lemma_values_rest_next(ts, adv(i, j));
        }
    }
}

proof fn lemma_values_next(ts: Seq<TokenV>, i: int)
    ensures
        spec_parse_values(ts, i) matches Ok((vs, j)) ==> i < j <= ts.len(),
    decreases toks_rem(ts, i), 4nat,
{
    lemma_value_next(ts, i);
    if spec_parse_value(ts, i) is Ok {
        let (v, j) = spec_parse_value(ts, i)->Ok_0;
        lemma_values_rest_next(ts, adv(i, j));
    }
}

proof fn lemma_pattern_next(ts: Seq<TokenV>, i: int)
    ensures
        spec_parse_pattern(ts, i) matches Ok((p, j)) ==> i < j <= ts.len(),
    decreases toks_rem(ts, i), 5nat,
{
    lemma_values_next(ts, i);
}

proof fn lemma_patterns_rest_next(ts: Seq<TokenV>, i: int, acc: Seq<PatternV>)
    ensures
        spec_parse_patterns_rest(ts, i, acc) matches Ok((ps, j)) ==> i <= j <= ts.len(),
    decreases toks_rem(ts, i), 6nat,
{
    if i < ts.len() && ts[i] is Or {
        lemma_pattern_next(ts, i + 1);
        if spec_parse_pattern(ts, i + 1) is Ok {
            let (p, j) = spec_parse_pattern(ts, i + 1)->Ok_0;
            lemma_patterns_rest_next(ts, adv(i + 1, j), acc.push(p));
        }
    }
}

proof fn lemma_patterns_next(ts: Seq<TokenV>, i: int)
    ensures
        spec_parse_patterns(ts, i) matches Ok((ps, j)) ==> i < j <= ts.len(),
    decreases toks_rem(ts, i), 7nat,
{
    lemma_pattern_next(ts, i);
    if spec_parse_pattern(ts, i) is Ok {
        let (p, j) = spec_parse_pattern(ts, i)->Ok_0;
        lemma_patterns_rest_next(ts, adv(i, j), seq![p]);
    }
}

proof fn lemma_inner_patterns_next(ts: Seq<TokenV>, i: int)
    ensures
        spec_parse_inner_patterns(ts, i) matches Ok((v, j)) ==> i < j <= ts.len(),
    decreases toks_rem(ts, i), 8nat,
{
    lemma_patterns_next(ts, i);
}

proof fn lemma_exclude_value_next(ts: Seq<TokenV>, i: int)
    ensures
        spec_parse_exclude_value(ts, i) matches Ok((v, j)) ==> i < j <= ts.len(),
    decreases toks_rem(ts, i), 2nat,
{
    if i < ts.len() && ts[i] is LeftCirc {
        lemma_exclude_inner_patterns_next(ts, i + 1);
    }
}

proof fn lemma_exclude_values_rest_next(ts: Seq<TokenV>, i: int)
    ensures
        spec_parse_exclude_values_rest(ts, i).1 >= i,
        i <= ts.len() ==> spec_parse_exclude_values_rest(ts, i).1 <= ts.len(),
    decreases toks_rem(ts, i), 3nat,
{
    if i < ts.len() {
        lemma_exclude_value_next(ts, i);
        if spec_parse_exclude_value(ts, i) is Ok {
            let (v, j) = spec_parse_exclude_value(ts, i)->Ok_0;
            lemma_exclude_values_rest_next(ts, adv(i, j));
        }
    }
}

proof fn lemma_exclude_values_next(ts: Seq<TokenV>, i: int)
    ensures
        spec_parse_exclude_values(ts, i) matches Ok((vs, j)) ==> i < j <= ts.len(),
    decreases toks_rem(ts, i), 4nat,
{
    lemma_exclude_value_next(ts, i);
    if spec_parse_exclude_value(ts, i) is Ok {
        let (v, j) = spec_parse_exclude_value(ts, i)->Ok_0;
        lemma_exclude_values_rest_next(ts, adv(i, j));
    }
}

proof fn lemma_exclude_pattern_next(ts: Seq<TokenV>, i: int)
    ensures
        spec_parse_exclude_pattern(ts, i) matches Ok((p, j)) ==> i < j <= ts.len(),
    decreases toks_rem(ts, i), 5nat,
{
    if i < ts.len() {
        let i1 = if ts[i] is Circumflex {
            i + 1
        } else {
            i
        };
        lemma_exclude_values_next(ts, i1);
    }
}

proof fn lemma_exclude_patterns_rest_next(ts: Seq<TokenV>, i: int, acc: Seq<PatternV>)
    ensures
        spec_parse_exclude_patterns_rest(ts, i, acc) matches Ok((ps, j)) ==> i <= j <= ts.len(),
    decreases toks_rem(ts, i), 6nat,
{
    if i < ts.len() && ts[i] is Or {
        lemma_exclude_pattern_next(ts, i + 1);
        if spec_parse_exclude_pattern(ts, i + 1) is Ok {
            let (p, j) = spec_parse_exclude_pattern(ts, i + 1)->Ok_0;
            lemma_exclude_patterns_rest_next(ts, adv(i + 1, j), acc.push(p));
        }
    }
}

proof fn lemma_exclude_patterns_next(ts: Seq<TokenV>, i: int)
    ensures
        spec_parse_exclude_patterns(ts, i) matches Ok((ps, j)) ==> i < j <= ts.len(),
    decreases toks_rem(ts, i), 7nat,
{
    lemma_exclude_pattern_next(ts, i);
    if spec_parse_exclude_pattern(ts, i) is Ok {
        let (p, j) = spec_parse_exclude_pattern(ts, i)->Ok_0;
        lemma_exclude_patterns_rest_next(ts, adv(i, j), seq![p]);
    }
}

proof fn lemma_exclude_inner_patterns_next(ts: Seq<TokenV>, i: int)
    ensures
        spec_parse_exclude_inner_patterns(ts, i) matches Ok((v, j)) ==> i < j <= ts.len(),
    decreases toks_rem(ts, i), 8nat,
{
    lemma_exclude_patterns_next(ts, i);
}

proof fn lemma_expression_next(ts: Seq<TokenV>, i: int)
    ensures
        spec_parse_expression(ts, i) matches Ok((e, j)) ==> i < j <= ts.len(),
    decreases toks_rem(ts, i), 9nat,
{
    lemma_patterns_next(ts, i);
    if spec_parse_patterns(ts, i) is Ok {
        let (ps, j) = spec_parse_patterns(ts, i)->Ok_0;
        if j < ts.len() && ts[j] is Minus {
            lemma_exclude_patterns_next(ts, adv(i, j + 1));
        }
    }
}

proof fn lemma_lvar_next(ts: Seq<TokenV>, i: int)
    ensures
        spec_parse_local_variable(ts, i) matches Ok((b, j)) ==> i < j <= ts.len(),
{
}

proof fn lemma_lvars_rest_next(ts: Seq<TokenV>, i: int, acc: Seq<(Seq<char>, Seq<char>)>)
    ensures
        spec_parse_lvars_rest(ts, i, acc) matches Ok((ds, j)) ==> i <= j <= ts.len(),
    decreases toks_rem(ts, i), 11nat,
{
    if i < ts.len() && ts[i] is Comma {
        lemma_lvar_next(ts, i + 1);
        if spec_parse_local_variable(ts, i + 1) is Ok {
            let ((key, src), j) = spec_parse_local_variable(ts, i + 1)->Ok_0;
            lemma_lvars_rest_next(ts, adv(i, j), destructs_insert(acc, key, src));
        }
    }
}

proof fn lemma_local_variables_next(ts: Seq<TokenV>, i: int)
    ensures
        spec_parse_local_variables(ts, i) matches Ok((ds, j)) ==> i <= j <= ts.len(),
    decreases toks_rem(ts, i), 12nat,
{
    if !(i < ts.len() && ts[i] is Equal) && !(i < ts.len() && !(ts[i] is Colon)) {
        lemma_lvar_next(ts, i + 1);
        if spec_parse_local_variable(ts, i + 1) is Ok {
            let ((key, src), j) = spec_parse_local_variable(ts, i + 1)->Ok_0;
            lemma_lvars_rest_next(ts, adv(i, j), destructs_insert(Seq::empty(), key, src));
        }
    }
}

proof fn lemma_define_next(ts: Seq<TokenV>, name: Seq<char>, i: int)
    ensures
        spec_parse_define(ts, name, i) matches Ok((st, j)) ==> i < j <= ts.len(),
    decreases toks_rem(ts, i), 13nat,
{
    lemma_local_variables_next(ts, i);
    if spec_parse_local_variables(ts, i) is Ok {
        let (lv, j) = spec_parse_local_variables(ts, i)->Ok_0;
        if j < ts.len() && ts[j] is Equal {
            lemma_expression_next(ts, adv(i, j + 1));
        }
    }
}

proof fn lemma_generate_next(ts: Seq<TokenV>, i: int)
    ensures
        spec_parse_generate(ts, i) matches Ok((st, j)) ==> i < j <= ts.len(),
    decreases toks_rem(ts, i), 13nat,
{
    lemma_expression_next(ts, i);
}

// ------------------------------------------------------------------
// The executable parser. Each function returns exactly what its
// specification mirror computes.
// ------------------------------------------------------------------
/// `find_key` returns the first position binding the key, or a negative
/// number exactly when the key is absent.
proof fn lemma_find_key(ds: Seq<(Seq<char>, Seq<char>)>, key: Seq<char>)
    ensures
        find_key(ds, key) < 0 ==> forall|t: int| 0 <= t < ds.len() ==> (#[trigger] ds[t]).0 != key,
        find_key(ds, key) >= 0 ==> {
            &&& find_key(ds, key) < ds.len()
            &&& ds[find_key(ds, key)].0 == key
            &&& forall|t: int| 0 <= t < find_key(ds, key) ==> (#[trigger] ds[t]).0 != key
        },
    decreases ds.len(),
{
    if ds.len() > 0 && ds[0].0 != key {
        lemma_find_key(ds.drop_first(), key);
        assert(forall|t: int| 1 <= t < ds.len() ==> ds.drop_first()[t - 1] == #[trigger] ds[t]);
    }
}

/// Binds `key` to `src` in the destructuring list, replacing an existing
/// binding of the same key.
fn destructs_insert_exec(ds: &mut Vec<(String, String)>, key: String, src: String)
    ensures
        final(ds).deep_view() =~= destructs_insert(old(ds).deep_view(), key@, src@),
{
    let n = ds.len();
    let mut t: usize = 0;
    proof {
        lemma_find_key(old(ds).deep_view(), key@);
    }
    while t < n
        invariant
            0 <= t <= n,
            n == ds.len(),
            *ds == *old(ds),
            forall|u: int| 0 <= u < t ==> (#[trigger] old(ds).deep_view()[u]).0 != key@,
        decreases n - t,
    {
        if crate::strutil::str_eq(ds[t].0.as_str(), key.as_str()) {
            proof {
                assert(old(ds).deep_view()[t as int].0 == key@);
                lemma_find_key(old(ds).deep_view(), key@);
                assert(find_key(old(ds).deep_view(), key@) == t as int);
            }
            ds.remove(t);
            ds.insert(t, (key, src));
            proof {
                assert(ds.deep_view() =~= destructs_insert(old(ds).deep_view(), key@, src@));
            }
            return ;
        }
        t += 1;
    }
    proof {
        lemma_find_key(old(ds).deep_view(), key@);
        assert(find_key(old(ds).deep_view(), key@) < 0);
    }
    ds.push((key, src));
    proof {
        assert(ds.deep_view() =~= destructs_insert(old(ds).deep_view(), key@, src@));
    }
}

/// One `local <- source` destructuring binding.
fn parse_local_variable(tokens: &Vec<TokenType>, index: usize) -> (r: Result<
    ((String, String), usize),
    ErrorValue,
>)
    ensures
        ({
            let s = spec_parse_local_variable(tokens.deep_view(), index as int);
            match r {
                Ok((b, j)) => s == Ok::<_, ErrV>(((b.0@, b.1@), j as int)),
                Err(e) => s == Err::<((Seq<char>, Seq<char>), int), _>(e.deep_view()),
            }
        }),
{
    let n = tokens.len();
    if index >= n {
        return Err(
            ErrorValue::EndOfToken(String::from_str("local variable (to)"), index),
        );
    }
    let local: String = match &tokens[index] {
        TokenType::Variable(var) => var.clone(),
        t => {
            return Err(
                ErrorValue::InvalidToken(
                    String::from_str("local variable (to)"),
                    t.to_text(),
                    index,
                ),
            );
        },
    };
    if index + 1 >= n {
        return Err(ErrorValue::EndOfToken(String::from_str("local variable"), index + 1));
    }
    match &tokens[index + 1] {
        TokenType::LeftArrow => {},
        t => {
            return Err(
                ErrorValue::InvalidToken(String::from_str("local variable"), t.to_text(), index + 1),
            );
        },
    }
    if index + 2 >= n {
        return Err(
            ErrorValue::EndOfToken(String::from_str("local variable (from)"), index + 2),
        );
    }
    match &tokens[index + 2] {
        TokenType::Variable(src) => Ok(((local, src.clone()), index + 3)),
        t => Err(
            ErrorValue::InvalidToken(
                String::from_str("local variable (from)"),
                t.to_text(),
                index + 2,
            ),
        ),
    }
}

/// The bindings after the first one.
fn parse_lvars_rest(tokens: &Vec<TokenType>, index: usize, acc: Vec<(String, String)>) -> (r:
    Result<(Vec<(String, String)>, usize), ErrorValue>)
    ensures
        ({
            let s = spec_parse_lvars_rest(tokens.deep_view(), index as int, acc.deep_view());
            match r {
                Ok((ds, j)) => s == Ok::<_, ErrV>((ds.deep_view(), j as int)),
                Err(e) => s == Err::<(Seq<(Seq<char>, Seq<char>)>, int), _>(e.deep_view()),
            }
        }),
    decreases toks_rem(tokens.deep_view(), index as int), 11nat,
{
    let n = tokens.len();
    if index >= n {
        return Err(ErrorValue::EndOfToken(String::from_str("local variables"), index));
    }
    match &tokens[index] {
        TokenType::Comma => {},
        _ => {
            return Ok((acc, index));
        },
    }
    match parse_local_variable(tokens, index + 1) {
        Ok(((key, src), j)) => {
            proof {
                lemma_lvar_next(tokens.deep_view(), index + 1);
            }
            let ghost key_v = key@;
            let ghost src_v = src@;
            let mut acc = acc;
            destructs_insert_exec(&mut acc, key, src);
            parse_lvars_rest(tokens, j, acc)
        },
        Err(_) => Err(
            ErrorValue::ErrorMessage(
                String::from_str("Next variable is nothing in local variables"),
                Some(index + 1),
            ),
        ),
    }
}

/// The optional destructuring clause of a definition.
fn parse_local_variables(tokens: &Vec<TokenType>, index: usize) -> (r: Result<
    (Vec<(String, String)>, usize),
    ErrorValue,
>)
    requires
        index <= tokens@.len(),
        tokens@.len() < usize::MAX,
    ensures
        ({
            let s = spec_parse_local_variables(tokens.deep_view(), index as int);
            match r {
                Ok((ds, j)) => s == Ok::<_, ErrV>((ds.deep_view(), j as int)),
                Err(e) => s == Err::<(Seq<(Seq<char>, Seq<char>)>, int), _>(e.deep_view()),
            }
        }),
    decreases toks_rem(tokens.deep_view(), index as int), 12nat,
{
    let n = tokens.len();
    if index < n {
        match &tokens[index] {
            TokenType::Equal => {
                let empty: Vec<(String, String)> = Vec::new();
                proof {
                    assert(empty.deep_view() =~= Seq::<(Seq<char>, Seq<char>)>::empty());
                }
                return Ok((empty, index));
            },
            TokenType::Colon => {},
            t => {
                return Err(
                    ErrorValue::InvalidToken(
                        String::from_str("local variables"),
                        t.to_text(),
                        index,
                    ),
                );
            },
        }
    }
    match parse_local_variable(tokens, index + 1) {
        Err(e) => Err(e),
        Ok(((key, src), j)) => {
            proof {
                lemma_lvar_next(tokens.deep_view(), index + 1);
            }
            let mut acc: Vec<(String, String)> = Vec::new();
            proof {
                assert(acc.deep_view() =~= Seq::<(Seq<char>, Seq<char>)>::empty());
            }
            destructs_insert_exec(&mut acc, key, src);
            parse_lvars_rest(tokens, j, acc)
        },
    }
}

/// One value: a literal, a variable reference, or a parenthesized group.
fn parse_value(tokens: &Vec<TokenType>, index: usize) -> (r: Result<(Value, usize), ErrorValue>)
    ensures
        ({
            let s = spec_parse_value(tokens.deep_view(), index as int);
            match r {
                Ok((v, j)) => s == Ok::<_, ErrV>((v.deep_view(), j as int)),
                Err(e) => s == Err::<(ValueV, int), _>(e.deep_view()),
            }
        }),
    decreases toks_rem(tokens.deep_view(), index as int), 2nat,
{
    let n = tokens.len();
    if index < n {
        match &tokens[index] {
            TokenType::Value(s) => Ok((Value::Literal(s.clone()), index + 1)),
            TokenType::Variable(s) => Ok((Value::Variable(s.clone()), index + 1)),
            TokenType::LeftCirc => parse_inner_patterns(tokens, index + 1),
            t => Err(ErrorValue::InvalidToken(String::from_str("value"), t.to_text(), index)),
        }
    } else {
        Err(ErrorValue::EndOfToken(String::from_str("value"), index))
    }
}

/// Greedily parsed further values.
fn parse_values_rest(tokens: &Vec<TokenType>, index: usize) -> (r: (Vec<Value>, usize))
    ensures
        ({
            let s = spec_parse_values_rest(tokens.deep_view(), index as int);
            r.0.deep_view() == s.0 && r.1 as int == s.1
        }),
    decreases toks_rem(tokens.deep_view(), index as int), 3nat,
{
    let n = tokens.len();
    if index >= n {
        let empty: Vec<Value> = Vec::new();
        proof {
            assert(empty.deep_view() =~= Seq::<ValueV>::empty());
        }
        return (empty, index);
    }
    match parse_value(tokens, index) {
        Ok((v, j)) => {
            proof {
                lemma_value_next(tokens.deep_view(), index as int);
            }
            let (mut rest, k) = parse_values_rest(tokens, j);
            rest.insert(0, v);
            proof {
                let s = spec_parse_values_rest(tokens.deep_view(), index as int);
                assert(rest.deep_view() =~= s.0);
            }
            (rest, k)
        },
        Err(_) => {
            let empty: Vec<Value> = Vec::new();
            proof {
                assert(empty.deep_view() =~= Seq::<ValueV>::empty());
            }
            (empty, index)
        },
    }
}

/// One or more values.
fn parse_values(tokens: &Vec<TokenType>, index: usize) -> (r: Result<
    (Vec<Value>, usize),
    ErrorValue,
>)
    ensures
        ({
            let s = spec_parse_values(tokens.deep_view(), index as int);
            match r {
                Ok((vs, j)) => s == Ok::<_, ErrV>((vs.deep_view(), j as int)),
                Err(e) => s == Err::<(Seq<ValueV>, int), _>(e.deep_view()),
            }
        }),
    decreases toks_rem(tokens.deep_view(), index as int), 4nat,
{
    match parse_value(tokens, index) {
        Err(e) => Err(e),
        Ok((v, j)) => {
            proof {
                lemma_value_next(tokens.deep_view(), index as int);
            }
            let (mut rest, k) = parse_values_rest(tokens, j);
            rest.insert(0, v);
            proof {
                let s = spec_parse_values(tokens.deep_view(), index as int);
                assert(rest.deep_view() =~= s->Ok_0.0);
            }
            Ok((rest, k))
        },
    }
}

/// One pattern: values with an optional trailing weight.
fn parse_pattern(tokens: &Vec<TokenType>, index: usize) -> (r: Result<
    (Pattern, usize),
    ErrorValue,
>)
    ensures
        ({
            let s = spec_parse_pattern(tokens.deep_view(), index as int);
            match r {
                Ok((p, j)) => s == Ok::<_, ErrV>((p.deep_view(), j as int)),
                Err(e) => s == Err::<(PatternV, int), _>(e.deep_view()),
            }
        }),
    decreases toks_rem(tokens.deep_view(), index as int), 5nat,
{
    let n = tokens.len();
    match parse_values(tokens, index) {
        Err(e) => Err(e),
        Ok((values, j)) => {
            if j < n {
                proof {
                    lemma_values_deep_view(values);
                }
                match &tokens[j] {
                    TokenType::Count(c) => Ok((Pattern::new(values, *c), j + 1)),
                    _ => Ok((Pattern::new(values, 1), j)),
                }
            } else {
                Err(ErrorValue::EndOfToken(String::from_str("pattern"), index))
            }
        },
    }
}

/// The alternatives after the first pattern.
fn parse_patterns_rest(tokens: &Vec<TokenType>, index: usize, acc: Vec<Pattern>) -> (r: Result<
    (Vec<Pattern>, usize),
    ErrorValue,
>)
    ensures
        ({
            let s = spec_parse_patterns_rest(tokens.deep_view(), index as int, acc.deep_view());
            match r {
                Ok((ps, j)) => s == Ok::<_, ErrV>((ps.deep_view(), j as int)),
                Err(e) => s == Err::<(Seq<PatternV>, int), _>(e.deep_view()),
            }
        }),
    decreases toks_rem(tokens.deep_view(), index as int), 6nat,
{
    let n = tokens.len();
    if index >= n {
        return Err(ErrorValue::EndOfToken(String::from_str("patterns"), index));
    }
    match &tokens[index] {
        TokenType::Or => {},
        _ => {
            return Ok((acc, index));
        },
    }
    match parse_pattern(tokens, index + 1) {
        Ok((p, j)) => {
            proof {
                lemma_pattern_next(tokens.deep_view(), index + 1);
            }
            let mut acc = acc;
            let ghost acc0 = acc.deep_view();
            acc.push(p);
            proof {
                assert(acc.deep_view() =~= acc0.push(p.deep_view()));
            }
            parse_patterns_rest(tokens, j, acc)
        },
        Err(_) => Err(
            ErrorValue::ErrorMessage(
                String::from_str("Next pattern is nothing in patterns"),
                Some(index + 1),
            ),
        ),
    }
}

/// One or more bar-separated patterns.
fn parse_patterns(tokens: &Vec<TokenType>, index: usize) -> (r: Result<
    (Vec<Pattern>, usize),
    ErrorValue,
>)
    ensures
        ({
            let s = spec_parse_patterns(tokens.deep_view(), index as int);
            match r {
                Ok((ps, j)) => s == Ok::<_, ErrV>((ps.deep_view(), j as int)),
                Err(e) => s == Err::<(Seq<PatternV>, int), _>(e.deep_view()),
            }
        }),
    decreases toks_rem(tokens.deep_view(), index as int), 7nat,
{
    match parse_pattern(tokens, index) {
        Err(e) => Err(e),
        Ok((p, j)) => {
            proof {
                lemma_pattern_next(tokens.deep_view(), index as int);
            }
            let mut acc: Vec<Pattern> = Vec::new();
            let ghost pv = p.deep_view();
            acc.push(p);
            proof {
                assert(acc.deep_view() =~= seq![pv]);
            }
            parse_patterns_rest(tokens, j, acc)
        },
    }
}

/// A parenthesized nested alternation, after its opening parenthesis.
fn parse_inner_patterns(tokens: &Vec<TokenType>, index: usize) -> (r: Result<
    (Value, usize),
    ErrorValue,
>)
    ensures
        ({
            let s = spec_parse_inner_patterns(tokens.deep_view(), index as int);
            match r {
                Ok((v, j)) => s == Ok::<_, ErrV>((v.deep_view(), j as int)),
                Err(e) => s == Err::<(ValueV, int), _>(e.deep_view()),
            }
        }),
    decreases toks_rem(tokens.deep_view(), index as int), 8nat,
{
    let n = tokens.len();
    match parse_patterns(tokens, index) {
        Err(e) => Err(e),
        Ok((patterns, j)) => {
            if j < n {
                match &tokens[j] {
                    TokenType::RightCirc => {
                        proof {
                            lemma_patterns_deep_view(patterns);
                        }
                        Ok((Value::InnerPattern(patterns), j + 1))
                    },
                    t => Err(
                        ErrorValue::InvalidToken(
                            String::from_str("inner patterns"),
                            t.to_text(),
                            index,
                        ),
                    ),
                }
            } else {
                Err(ErrorValue::EndOfToken(String::from_str("inner patterns"), j))
            }
        },
    }
}

/// Collects the literal payloads of every value of every pattern.
fn collect_pattern_literals(ps: &Vec<Pattern>) -> (r: Vec<String>)
    ensures
        r.deep_view() =~= pattern_literals(ps.deep_view()),
{
    let mut out: Vec<String> = Vec::new();
    proof {
        assert(out.deep_view() =~= pattern_literals(ps.deep_view().take(0)));
    }
    let n = ps.len();
    let mut i: usize = 0;
    while i < n
        invariant
            0 <= i <= n,
            n == ps@.len(),
            out.deep_view() =~= pattern_literals(ps.deep_view().take(i as int)),
        decreases n - i,
    {
        let vs = &ps[i].values;
        let ghost vd = pattern_view(ps@[i as int]).values;
        proof {
            lemma_values_view_index(vs@);
        }
        let m = vs.len();
        let mut j: usize = 0;
        proof {
            assert(vd.take(0) =~= Seq::<ValueV>::empty());
        }
        while j < m
            invariant
                0 <= j <= m,
                m == vs@.len(),
                m == vd.len(),
                vd == values_view(vs@),
                forall|t: int| 0 <= t < m ==> vd[t] == value_view(vs@[t]),
                out.deep_view() =~= pattern_literals(ps.deep_view().take(i as int)) + value_literals(
                    vd.take(j as int),
                ),
            decreases m - j,
        {
            let ghost out0 = out.deep_view();
            match &vs[j] {
                Value::Literal(s) => {
                    out.push(s.clone());
                    proof {
                        assert(out.deep_view() =~= out0.push(s@));
                    }
                },
                _ => {},
            }
            proof {
                assert(vd.take(j + 1).drop_last() =~= vd.take(j as int));
                assert(vd.take(j + 1).last() == vd[j as int]);
            }
            j += 1;
        }
        proof {
            assert(vd.take(m as int) =~= vd);
            assert(ps.deep_view().take(i + 1).drop_last() =~= ps.deep_view().take(i as int));
            assert(ps.deep_view().take(i + 1).last() == ps.deep_view()[i as int]);
        }
        i += 1;
    }
    proof {
        assert(ps.deep_view().take(n as int) =~= ps.deep_view());
    }
    out
}

/// Extends every accumulated alternative by every choice.
fn cross_with(choices: &Vec<String>, acc: &Vec<String>) -> (r: Vec<String>)
    ensures
        r.deep_view() =~= cross_concat(choices.deep_view(), acc.deep_view()),
{
    let mut out: Vec<String> = Vec::new();
    proof {
        assert(out.deep_view() =~= cross_concat(choices.deep_view().take(0), acc.deep_view()));
    }
    let n = choices.len();
    let m = acc.len();
    let mut i: usize = 0;
    while i < n
        invariant
            0 <= i <= n,
            n == choices@.len(),
            m == acc@.len(),
            out.deep_view() =~= cross_concat(choices.deep_view().take(i as int), acc.deep_view()),
        decreases n - i,
    {
        let ghost row_base = out.deep_view();
        let mut k: usize = 0;
        while k < m
            invariant
                0 <= k <= m,
                n == choices@.len(),
                m == acc@.len(),
                i < n,
                out.deep_view().len() == row_base.len() + k,
                forall|t: int| 0 <= t < row_base.len() ==> out.deep_view()[t] == row_base[t],
                forall|t: int|
                    0 <= t < k ==> out.deep_view()[row_base.len() + t] == acc.deep_view()[t]
                        + choices.deep_view()[i as int],
            decreases m - k,
        {
            let ghost out0 = out.deep_view();
            let piece = acc[k].clone().concat(choices[i].as_str());
            out.push(piece);
            proof {
                assert(out.deep_view() =~= out0.push(
                    acc.deep_view()[k as int] + choices.deep_view()[i as int],
                ));
            }
            k += 1;
        }
        proof {
            let cd = choices.deep_view();
            let ad = acc.deep_view();
            assert(cd.take(i + 1).drop_last() =~= cd.take(i as int));
            assert(cd.take(i + 1).last() == cd[i as int]);
            assert(out.deep_view() =~= cross_concat(cd.take(i as int), ad) + Seq::new(
                ad.len(),
                |t: int| ad[t] + cd[i as int],
            ));
        }
        i += 1;
    }
    proof {
        assert(choices.deep_view().take(n as int) =~= choices.deep_view());
    }
    out
}

/// The expanded alternatives of one exclusion pattern's value list.
fn expand_values_exec(values: &Vec<Value>) -> (r: Vec<String>)
    ensures
        r.deep_view() =~= expand_values(values.deep_view(), values@.len() as nat),
    decreases values, 0nat,
{
    let mut value_list: Vec<String> = Vec::new();
    value_list.push(String::new());
    proof {
        assert(value_list.deep_view() =~= seq![Seq::<char>::empty()]);
    }
    let m = values.len();
    let mut j: usize = 0;
    while j < m
        invariant
            0 <= j <= m,
            m == values@.len(),
            value_list.deep_view() =~= expand_values(values.deep_view(), j as nat),
        decreases m - j,
    {
        let ghost vd = values.deep_view();
        proof {
            assert(vd[j as int] == value_view(values@[j as int]));
        }
        match &values[j] {
            Value::Literal(lit) => {
                let mut nl: Vec<String> = Vec::new();
                let p = value_list.len();
                let mut k: usize = 0;
                while k < p
                    invariant
                        0 <= k <= p,
                        p == value_list@.len(),
                        nl.deep_view().len() == k,
                        forall|t: int|
                            0 <= t < k ==> nl.deep_view()[t] == value_list.deep_view()[t] + lit@,
                    decreases p - k,
                {
                    let ghost nl0 = nl.deep_view();
                    let piece = value_list[k].clone().concat(lit.as_str());
                    nl.push(piece);
                    proof {
                        assert(nl.deep_view() =~= nl0.push(value_list.deep_view()[k as int] + lit@));
                    }
                    k += 1;
                }
                proof {
                    assert(nl.deep_view() =~= Seq::new(
                        value_list.deep_view().len(),
                        |t: int| value_list.deep_view()[t] + lit@,
                    ));
                }
                value_list = nl;
            },
            Value::Variable(_) => {},
            Value::InnerPattern(ips) => {
                let expanded = expand_exclude_inner_pattern(ips);
                let lits = collect_pattern_literals(&expanded);
                let crossed = cross_with(&lits, &value_list);
                proof {
                    lemma_patterns_deep_view(*ips);
                    assert(patterns_view(ips@) =~= ips.deep_view());
                    assert(lits.deep_view() =~= pattern_literals(
                        expand_excludes(patterns_view(ips@)),
                    ));
                }
                value_list = crossed;
            },
        }
        j += 1;
    }
    value_list
}

/// Flattens nested groups inside an exclusion list: every exclusion pattern
/// becomes a list of plain literal alternatives with its anchoring mode.
fn expand_exclude_inner_pattern(patterns: &Vec<Pattern>) -> (r: Vec<Pattern>)
    ensures
        r.deep_view() =~= expand_excludes(patterns.deep_view()),
    decreases patterns, 1nat,
{
    let mut result: Vec<Pattern> = Vec::new();
    proof {
        assert(result.deep_view() =~= expand_excludes(patterns.deep_view().take(0)));
    }
    let n = patterns.len();
    let mut i: usize = 0;
    while i < n
        invariant
            0 <= i <= n,
            n == patterns@.len(),
            result.deep_view() =~= expand_excludes(patterns.deep_view().take(i as int)),
        decreases n - i,
    {
        let value_list = expand_values_exec(&patterns[i].values);
        let ghost pd = patterns.deep_view();
        let ghost alts = expand_one(pd[i as int]);
        proof {
            lemma_values_deep_view(patterns@[i as int].values);
            assert(pd[i as int].values =~= patterns@[i as int].values.deep_view());
            assert(value_list.deep_view() =~= expand_values(
                pd[i as int].values,
                pd[i as int].values.len(),
            ));
            assert(alts.len() == value_list.deep_view().len());
        }
        let mode = patterns[i].mode;
        let p = value_list.len();
        let mut k: usize = 0;
        while k < p
            invariant
                0 <= k <= p,
                p == value_list@.len(),
                pd == patterns.deep_view(),
                i < pd.len(),
                mode == pd[i as int].mode,
                alts == expand_one(pd[i as int]),
                alts.len() == p,
                forall|t: int|
                    0 <= t < p ==> #[trigger] alts[t] == (PatternV {
                        values: seq![ValueV::Literal(value_list.deep_view()[t])],
                        count: 0,
                        mode: pd[i as int].mode,
                    }),
                result.deep_view() =~= expand_excludes(pd.take(i as int)) + alts.take(k as int),
            decreases p - k,
        {
            let ghost result0 = result.deep_view();
            let s = value_list[k].clone();
            let mut lit_values: Vec<Value> = Vec::new();
            let ghost sv = s@;
            lit_values.push(Value::Literal(s));
            let pat = Pattern::exclude_new(lit_values, mode);
            result.push(pat);
            proof {
                lemma_values_deep_view(pat.values);
                assert(pat.deep_view().values =~= seq![ValueV::Literal(sv)]);
                assert(pat.deep_view() == alts[k as int]);
                assert(result.deep_view() =~= result0.push(alts[k as int]));
                assert(alts.take(k + 1) =~= alts.take(k as int).push(alts[k as int]));
                assert(result.deep_view() =~= expand_excludes(pd.take(i as int)) + alts.take(
                    k + 1,
                ));
            }
            k += 1;
        }
        proof {
            assert(alts.take(p as int) =~= alts);
            assert(pd.take(i + 1).drop_last() =~= pd.take(i as int));
            assert(pd.take(i + 1).last() == pd[i as int]);
            assert(result.deep_view() =~= expand_excludes(pd.take(i + 1)));
        }
        i += 1;
    }
    proof {
        assert(patterns.deep_view().take(n as int) =~= patterns.deep_view());
    }
    result
}

/// Whether some value in the list is a variable reference.
fn values_have_variable(values: &Vec<Value>) -> (r: bool)
    ensures
        r == has_variable(values.deep_view()),
{
    let n = values.len();
    let mut i: usize = 0;
    while i < n
        invariant
            0 <= i <= n,
            n == values@.len(),
            forall|t: int| 0 <= t < i ==> !(values.deep_view()[t] is Variable),
        decreases n - i,
    {
        if values[i].is_variable() {
            proof {
                assert(values.deep_view()[i as int] is Variable);
            }
            return true;
        }
        i += 1;
    }
    false
}

/// One exclusion value: a literal or a parenthesized group.
fn parse_exclude_value(tokens: &Vec<TokenType>, index: usize) -> (r: Result<
    (Value, usize),
    ErrorValue,
>)
    ensures
        ({
            let s = spec_parse_exclude_value(tokens.deep_view(), index as int);
            match r {
                Ok((v, j)) => s == Ok::<_, ErrV>((v.deep_view(), j as int)),
                Err(e) => s == Err::<(ValueV, int), _>(e.deep_view()),
            }
        }),
    decreases toks_rem(tokens.deep_view(), index as int), 2nat,
{
    let n = tokens.len();
    if index < n {
        match &tokens[index] {
            TokenType::Value(s) => Ok((Value::Literal(s.clone()), index + 1)),
            TokenType::LeftCirc => parse_exclude_inner_patterns(tokens, index + 1),
            t => Err(
                ErrorValue::InvalidToken(String::from_str("exclude value"), t.to_text(), index),
            ),
        }
    } else {
        Err(ErrorValue::EndOfToken(String::from_str("exclude value"), index))
    }
}

/// Greedily parsed further exclusion values.
fn parse_exclude_values_rest(tokens: &Vec<TokenType>, index: usize) -> (r: (Vec<Value>, usize))
    ensures
        ({
            let s = spec_parse_exclude_values_rest(tokens.deep_view(), index as int);
            r.0.deep_view() == s.0 && r.1 as int == s.1
        }),
    decreases toks_rem(tokens.deep_view(), index as int), 3nat,
{
    let n = tokens.len();
    if index >= n {
        let empty: Vec<Value> = Vec::new();
        proof {
            assert(empty.deep_view() =~= Seq::<ValueV>::empty());
        }
        return (empty, index);
    }
    match parse_exclude_value(tokens, index) {
        Ok((v, j)) => {
            proof {
                lemma_exclude_value_next(tokens.deep_view(), index as int);
            }
            let (mut rest, k) = parse_exclude_values_rest(tokens, j);
            rest.insert(0, v);
            proof {
                let s = spec_parse_exclude_values_rest(tokens.deep_view(), index as int);
                assert(rest.deep_view() =~= s.0);
            }
            (rest, k)
        },
        Err(_) => {
            let empty: Vec<Value> = Vec::new();
            proof {
                assert(empty.deep_view() =~= Seq::<ValueV>::empty());
            }
            (empty, index)
        },
    }
}

/// One or more exclusion values.
fn parse_exclude_values(tokens: &Vec<TokenType>, index: usize) -> (r: Result<
    (Vec<Value>, usize),
    ErrorValue,
>)
    ensures
        ({
            let s = spec_parse_exclude_values(tokens.deep_view(), index as int);
            match r {
                Ok((vs, j)) => s == Ok::<_, ErrV>((vs.deep_view(), j as int)),
                Err(e) => s == Err::<(Seq<ValueV>, int), _>(e.deep_view()),
            }
        }),
    decreases toks_rem(tokens.deep_view(), index as int), 4nat,
{
    match parse_exclude_value(tokens, index) {
        Err(e) => Err(e),
        Ok((v, j)) => {
            proof {
                lemma_exclude_value_next(tokens.deep_view(), index as int);
            }
            let (mut rest, k) = parse_exclude_values_rest(tokens, j);
            rest.insert(0, v);
            proof {
                let s = spec_parse_exclude_values(tokens.deep_view(), index as int);
                assert(rest.deep_view() =~= s->Ok_0.0);
            }
            Ok((rest, k))
        },
    }
}

/// One exclusion pattern: optional anchors around values, no variables.
fn parse_exclude_pattern(tokens: &Vec<TokenType>, index: usize) -> (r: Result<
    (Pattern, usize),
    ErrorValue,
>)
    ensures
        ({
            let s = spec_parse_exclude_pattern(tokens.deep_view(), index as int);
            match r {
                Ok((p, j)) => s == Ok::<_, ErrV>((p.deep_view(), j as int)),
                Err(e) => s == Err::<(PatternV, int), _>(e.deep_view()),
            }
        }),
    decreases toks_rem(tokens.deep_view(), index as int), 5nat,
{
    let n = tokens.len();
    if index >= n {
        return Err(
            ErrorValue::EndOfToken(String::from_str("exclude pattern (prefix)"), index),
        );
    }
    let is_prefix = matches!(&tokens[index], TokenType::Circumflex);
    let i1 = if is_prefix {
        index + 1
    } else {
        index
    };
    match parse_exclude_values(tokens, i1) {
        Err(e) => Err(e),
        Ok((values, j)) => {
            proof {
                lemma_exclude_values_next(tokens.deep_view(), i1 as int);
            }
            if values_have_variable(&values) {
                return Err(ErrorValue::ExcludeIncludeVariable);
            }
            let is_postfix = j < n && matches!(&tokens[j], TokenType::Circumflex);
            let j1 = if is_postfix {
                j + 1
            } else {
                j
            };
            let mode = if is_prefix && is_postfix {
                ExtractMode::Exact
            } else if is_prefix {
                ExtractMode::Forward
            } else if is_postfix {
                ExtractMode::Backward
            } else {
                ExtractMode::Unanchored
            };
            proof {
                lemma_values_deep_view(values);
            }
            Ok((Pattern::exclude_new(values, mode), j1))
        },
    }
}

/// The exclusion alternatives after the first.
fn parse_exclude_patterns_rest(tokens: &Vec<TokenType>, index: usize, acc: Vec<Pattern>) -> (r:
    Result<(Vec<Pattern>, usize), ErrorValue>)
    ensures
        ({
            let s = spec_parse_exclude_patterns_rest(
                tokens.deep_view(),
                index as int,
                acc.deep_view(),
            );
            match r {
                Ok((ps, j)) => s == Ok::<_, ErrV>((ps.deep_view(), j as int)),
                Err(e) => s == Err::<(Seq<PatternV>, int), _>(e.deep_view()),
            }
        }),
    decreases toks_rem(tokens.deep_view(), index as int), 6nat,
{
    let n = tokens.len();
    if index >= n {
        return Err(ErrorValue::EndOfToken(String::from_str("exclude patterns"), index));
    }
    match &tokens[index] {
        TokenType::Or => {},
        _ => {
            return Ok((acc, index));
        },
    }
    match parse_exclude_pattern(tokens, index + 1) {
        Ok((p, j)) => {
            proof {
                lemma_exclude_pattern_next(tokens.deep_view(), index + 1);
            }
            let mut acc = acc;
            let ghost acc0 = acc.deep_view();
            acc.push(p);
            proof {
                assert(acc.deep_view() =~= acc0.push(p.deep_view()));
            }
            parse_exclude_patterns_rest(tokens, j, acc)
        },
        Err(_) => Ok((acc, index + 1)),
    }
}

/// One or more bar-separated exclusion patterns.
fn parse_exclude_patterns(tokens: &Vec<TokenType>, index: usize) -> (r: Result<
    (Vec<Pattern>, usize),
    ErrorValue,
>)
    ensures
        ({
            let s = spec_parse_exclude_patterns(tokens.deep_view(), index as int);
            match r {
                Ok((ps, j)) => s == Ok::<_, ErrV>((ps.deep_view(), j as int)),
                Err(e) => s == Err::<(Seq<PatternV>, int), _>(e.deep_view()),
            }
        }),
    decreases toks_rem(tokens.deep_view(), index as int), 7nat,
{
    match parse_exclude_pattern(tokens, index) {
        Err(e) => Err(e),
        Ok((p, j)) => {
            proof {
                lemma_exclude_pattern_next(tokens.deep_view(), index as int);
            }
            let mut acc: Vec<Pattern> = Vec::new();
            let ghost pv = p.deep_view();
            acc.push(p);
            proof {
                assert(acc.deep_view() =~= seq![pv]);
            }
            parse_exclude_patterns_rest(tokens, j, acc)
        },
    }
}

/// A parenthesized group inside an exclusion, after its opening parenthesis.
fn parse_exclude_inner_patterns(tokens: &Vec<TokenType>, index: usize) -> (r: Result<
    (Value, usize),
    ErrorValue,
>)
    ensures
        ({
            let s = spec_parse_exclude_inner_patterns(tokens.deep_view(), index as int);
            match r {
                Ok((v, j)) => s == Ok::<_, ErrV>((v.deep_view(), j as int)),
                Err(e) => s == Err::<(ValueV, int), _>(e.deep_view()),
            }
        }),
    decreases toks_rem(tokens.deep_view(), index as int), 8nat,
{
    let n = tokens.len();
    match parse_exclude_patterns(tokens, index) {
        Err(e) => Err(e),
        Ok((patterns, j)) => {
            if j < n {
                match &tokens[j] {
                    TokenType::RightCirc => {
                        proof {
                            lemma_patterns_deep_view(patterns);
                        }
                        Ok((Value::InnerPattern(patterns), j + 1))
                    },
                    t => Err(
                        ErrorValue::InvalidToken(
                            String::from_str("exclude inner patterns"),
                            t.to_text(),
                            index,
                        ),
                    ),
                }
            } else {
                Err(ErrorValue::EndOfToken(String::from_str("exclude inner patterns"), j))
            }
        },
    }
}

/// A whole expression: patterns, optionally `-` and exclusion patterns,
/// whose nested groups are expanded into flat literal alternatives.
fn parse_expression(tokens: &Vec<TokenType>, index: usize) -> (r: Result<
    (Expression, usize),
    ErrorValue,
>)
    ensures
        ({
            let s = spec_parse_expression(tokens.deep_view(), index as int);
            match r {
                Ok((e, j)) => s == Ok::<_, ErrV>((e.deep_view(), j as int)),
                Err(e) => s == Err::<(ExprV, int), _>(e.deep_view()),
            }
        }),
    decreases toks_rem(tokens.deep_view(), index as int), 9nat,
{
    let n = tokens.len();
    match parse_patterns(tokens, index) {
        Err(e) => Err(e),
        Ok((patterns, j)) => {
            proof {
                lemma_patterns_next(tokens.deep_view(), index as int);
            }
            let minus = j < n && matches!(&tokens[j], TokenType::Minus);
            if minus {
                match parse_exclude_patterns(tokens, j + 1) {
                    Err(e) => Err(e),
                    Ok((excl, k)) => {
                        let excludes = expand_exclude_inner_pattern(&excl);
                        proof {
                            lemma_patterns_deep_view(patterns);
                            lemma_patterns_deep_view(excl);
                            lemma_patterns_deep_view(excludes);
                            assert(patterns_view(excludes@) =~= expand_excludes(excl.deep_view()));
                        }
                        Ok((Expression { patterns, excludes }, k))
                    },
                }
            } else {
                let excludes: Vec<Pattern> = Vec::new();
                proof {
                    lemma_patterns_deep_view(patterns);
                    lemma_patterns_deep_view(excludes);
                    assert(patterns_view(excludes@) =~= expand_excludes(Seq::<PatternV>::empty()));
                }
                Ok((Expression { patterns, excludes }, j))
            }
        },
    }
}

/// A definition after its name.
fn parse_define(value: &str, tokens: &Vec<TokenType>, index: usize) -> (r: Result<
    (Statement, usize),
    ErrorValue,
>)
    requires
        index <= tokens@.len(),
        tokens@.len() < usize::MAX,
    ensures
        ({
            let s = spec_parse_define(tokens.deep_view(), value@, index as int);
            match r {
                Ok((st, j)) => s == Ok::<_, ErrV>((st.deep_view(), j as int)),
                Err(e) => s == Err::<(StmtV, int), _>(e.deep_view()),
            }
        }),
    decreases toks_rem(tokens.deep_view(), index as int), 13nat,
{
    let n = tokens.len();
    match parse_local_variables(tokens, index) {
        Err(e) => Err(e),
        Ok((local_variables, j)) => {
            proof {
                lemma_local_variables_next(tokens.deep_view(), index as int);
            }
            if j >= n {
                return Err(ErrorValue::EndOfToken(String::from_str("define variable"), index));
            }
            match &tokens[j] {
                TokenType::Equal => {},
                t => {
                    return Err(
                        ErrorValue::InvalidToken(
                            String::from_str("define variable"),
                            t.to_text(),
                            index,
                        ),
                    );
                },
            }
            match parse_expression(tokens, j + 1) {
                Err(e) => Err(e),
                Ok((expr, k)) => {
                    if k >= n {
                        return Err(
                            ErrorValue::EndOfToken(
                                String::from_str("expression of define variable"),
                                index,
                            ),
                        );
                    }
                    let terminated = matches!(&tokens[k], TokenType::Semicolon | TokenType::NewLine);
                    if terminated {
                        Ok(
                            (
                                Statement::Define(
                                    DefineStruct {
                                        name: value.to_owned(),
                                        destruct_variables: local_variables,
                                        expr,
                                    },
                                ),
                                k + 1,
                            ),
                        )
                    } else {
                        Err(
                            ErrorValue::InvalidToken(
                                String::from_str("expression of define variable"),
                                tokens[k].to_text(),
                                index,
                            ),
                        )
                    }
                },
            }
        },
    }
}

/// A generate statement after its `%`.
fn parse_generate(tokens: &Vec<TokenType>, index: usize) -> (r: Result<
    (Statement, usize),
    ErrorValue,
>)
    ensures
        ({
            let s = spec_parse_generate(tokens.deep_view(), index as int);
            match r {
                Ok((st, j)) => s == Ok::<_, ErrV>((st.deep_view(), j as int)),
                Err(e) => s == Err::<(StmtV, int), _>(e.deep_view()),
            }
        }),
    decreases toks_rem(tokens.deep_view(), index as int), 13nat,
{
    let n = tokens.len();
    match parse_expression(tokens, index) {
        Err(e) => Err(e),
        Ok((expr, j)) => {
            if j >= n {
                return Err(ErrorValue::EndOfToken(String::from_str("generate"), j));
            }
            match &tokens[j] {
                TokenType::Semicolon => Ok((Statement::Generate(expr), j + 1)),
                t => Err(
                    ErrorValue::InvalidToken(String::from_str("generate"), t.to_text(), j),
                ),
            }
        },
    }
}

/// The statement list from a position.
fn parse_statements(tokens: &Vec<TokenType>, index: usize) -> (r: Result<
    Vec<Statement>,
    ErrorValue,
>)
    requires
        tokens@.len() < usize::MAX,
    ensures
        ({
            let s = spec_parse_stmts(tokens.deep_view(), index as int);
            match r {
                Ok(sts) => s == Ok::<_, ErrV>(sts.deep_view()),
                Err(e) => s == Err::<Seq<StmtV>, _>(e.deep_view()),
            }
        }),
    decreases toks_rem(tokens.deep_view(), index as int), 14nat,
{
    let n = tokens.len();
    if index >= n {
        let empty: Vec<Statement> = Vec::new();
        proof {
            assert(empty.deep_view() =~= Seq::<StmtV>::empty());
        }
        return Ok(empty);
    }
    match &tokens[index] {
        TokenType::Variable(name) => {
            match parse_define(name.as_str(), tokens, index + 1) {
                Err(e) => Err(e),
                Ok((st, j)) => {
                    proof {
                        lemma_define_next(tokens.deep_view(), name@, index + 1);
                    }
                    match parse_statements(tokens, j) {
                        Err(e) => Err(e),
                        Ok(mut rest) => {
                            let ghost rest0 = rest.deep_view();
                            let ghost stv = st.deep_view();
                            rest.insert(0, st);
                            proof {
                                assert(rest.deep_view() =~= seq![stv] + rest0);
                            }
                            Ok(rest)
                        },
                    }
                },
            }
        },
        TokenType::Percent => {
            match parse_generate(tokens, index + 1) {
                Err(e) => Err(e),
                Ok((st, j)) => {
                    proof {
                        lemma_generate_next(tokens.deep_view(), index + 1);
                    }
                    match parse_statements(tokens, j) {
                        Err(e) => Err(e),
                        Ok(mut rest) => {
                            let ghost rest0 = rest.deep_view();
                            let ghost stv = st.deep_view();
                            rest.insert(0, st);
                            proof {
                                assert(rest.deep_view() =~= seq![stv] + rest0);
                            }
                            Ok(rest)
                        },
                    }
                },
            }
        },
        TokenType::Unknown(s) => Err(ErrorValue::UnknownToken(s.clone(), index)),
        TokenType::NewLine => parse_statements(tokens, index + 1),
        t => Err(ErrorValue::InvalidToken(String::from_str("statement"), t.to_text(), index)),
    }
}

/// Parses a token stream into a statement list; all-or-nothing, the first
/// structural error aborts the whole compilation, and the result is exactly
/// what [`spec_parse`] says, success and error alike.
pub fn parse(tokens: &Vec<TokenType>) -> (r: Result<Vec<Statement>, ErrorValue>)
    requires
        tokens@.len() < usize::MAX,
    ensures
        ({
            let s = spec_parse(tokens.deep_view());
            match r {
                Ok(sts) => s == Ok::<_, ErrV>(sts.deep_view()),
                Err(e) => s == Err::<Seq<StmtV>, _>(e.deep_view()),
            }
        }),
{
    parse_statements(tokens, 0)
}

} // verus!
