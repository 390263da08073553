//! The tokenizer: turns grammar text (or a pre-split list of lexical
//! fragments) into a sequence of typed tokens.
//!
//! The specification is a character-by-character state machine
//! ([`lex_step`]): the executable scanner is proved to fold that machine over
//! the input, so [`lexer`] returns exactly [`lex_spec`] of its input.
use vstd::prelude::*;
use vstd::string::StrSliceExecFns;
use vstd::string::StringExecFns;

use crate::strutil::{
    digit_val, digit_val_exec, digits_val, dec_digits, is_digit, push_char, str_eq, usize_to_string,
};

verus! {

/// One lexical token of the grammar notation.
///
/// Unrecognized text becomes [`TokenType::Unknown`] instead of failing:
/// the parser reports it later with positional context.
#[derive(Debug, Clone, PartialEq)]
pub enum TokenType {
    /// Text the tokenizer could not classify.
    Unknown(String),
    /// `-`, introducing the exclusion list of an expression.
    Minus,
    /// `|`, separating pattern alternatives.
    Or,
    /// `=`, binding a variable to an expression.
    Equal,
    /// `^`, anchoring an exclusion pattern at the start or the end.
    Circumflex,
    /// `%`, introducing a generate statement.
    Percent,
    /// `;`, ending a statement.
    Semicolon,
    /// A quoted literal string (without the quotes).
    Value(String),
    /// A numeric weight.
    Count(usize),
    /// A bare identifier naming a variable.
    Variable(String),
    /// A line break, usable as a statement separator.
    NewLine,
    /// `(`, opening a nested alternation.
    LeftCirc,
    /// `)`, closing a nested alternation.
    RightCirc,
    /// `:`, introducing destructuring bindings of a definition.
    Colon,
    /// `<-`, binding a local name to a source variable.
    LeftArrow,
    /// `,`, separating destructuring bindings.
    Comma,
}

/// The mathematical shadow of [`TokenType`].
pub enum TokenV {
    Unknown(Seq<char>),
    Minus,
    Or,
    Equal,
    Circumflex,
    Percent,
    Semicolon,
    Value(Seq<char>),
    Count(nat),
    Variable(Seq<char>),
    NewLine,
    LeftCirc,
    RightCirc,
    Colon,
    LeftArrow,
    Comma,
}

impl DeepView for TokenType {
    type V = TokenV;

    open spec fn deep_view(&self) -> TokenV {
        match self {
            TokenType::Unknown(s) => TokenV::Unknown(s@),
            TokenType::Minus => TokenV::Minus,
            TokenType::Or => TokenV::Or,
            TokenType::Equal => TokenV::Equal,
            TokenType::Circumflex => TokenV::Circumflex,
            TokenType::Percent => TokenV::Percent,
            TokenType::Semicolon => TokenV::Semicolon,
            TokenType::Value(s) => TokenV::Value(s@),
            TokenType::Count(n) => TokenV::Count(*n as nat),
            TokenType::Variable(s) => TokenV::Variable(s@),
            TokenType::NewLine => TokenV::NewLine,
            TokenType::LeftCirc => TokenV::LeftCirc,
            TokenType::RightCirc => TokenV::RightCirc,
            TokenType::Colon => TokenV::Colon,
            TokenType::LeftArrow => TokenV::LeftArrow,
            TokenType::Comma => TokenV::Comma,
        }
    }
}

/// The diagnostic text of a token, as error messages print it.
///
/// It equals the canonical source text of the token except for
/// [`TokenV::NewLine`], which prints as `(NewLine)`.
pub open spec fn token_text(t: TokenV) -> Seq<char> {
    match t {
        TokenV::Unknown(s) => s,
        TokenV::Minus => "-"@,
        TokenV::Or => "|"@,
        TokenV::Equal => "="@,
        TokenV::Circumflex => "^"@,
        TokenV::Percent => "%"@,
        TokenV::Semicolon => ";"@,
        TokenV::Value(s) => seq!['"'] + s + seq!['"'],
        TokenV::Count(n) => dec_digits(n),
        TokenV::Variable(s) => s,
        TokenV::NewLine => "(NewLine)"@,
        TokenV::LeftCirc => "("@,
        TokenV::RightCirc => ")"@,
        TokenV::Colon => ":"@,
        TokenV::LeftArrow => "<-"@,
        TokenV::Comma => ","@,
    }
}

impl TokenType {
    /// The diagnostic text of the token, used in error payloads.
    pub fn to_text(&self) -> (r: String)
        ensures
            r@ == token_text(self.deep_view()),
    {
        match self {
            TokenType::Unknown(s) => s.clone(),
            TokenType::Minus => String::from_str("-"),
            TokenType::Or => String::from_str("|"),
            TokenType::Equal => String::from_str("="),
            TokenType::Circumflex => String::from_str("^"),
            TokenType::Percent => String::from_str("%"),
            TokenType::Semicolon => String::from_str(";"),
            TokenType::Value(s) => {
                let mut r = String::from_str("\"");
                r.append(s.as_str());
                r.append("\"");
                proof {
                    reveal_strlit("\"");
                    assert(r@ =~= seq!['"'] + s@ + seq!['"']);
                }
                r
            },
            TokenType::Count(n) => usize_to_string(*n),
            TokenType::Variable(s) => s.clone(),
            TokenType::NewLine => String::from_str("(NewLine)"),
            TokenType::LeftCirc => String::from_str("("),
            TokenType::RightCirc => String::from_str(")"),
            TokenType::Colon => String::from_str(":"),
            TokenType::LeftArrow => String::from_str("<-"),
            TokenType::Comma => String::from_str(","),
        }
    }
}

/// The characters Rust counts as ASCII whitespace.
pub open spec fn is_space(c: char) -> bool {
    c == ' ' || c == '\t' || c == '\n' || c == '\u{c}' || c == '\r'
}

/// Executable form of [`is_space`].
fn is_space_exec(c: char) -> (r: bool)
    ensures
        r == is_space(c),
{
    c == ' ' || c == '\t' || c == '\n' || c == '\u{c}' || c == '\r'
}

/// The single-character tokens other than `-` (which may combine with a
/// preceding `<` into `<-`).
pub open spec fn is_special(c: char) -> bool {
    c == '|' || c == ';' || c == '%' || c == '^' || c == '=' || c == '(' || c == ')' || c == ':'
        || c == ','
}

/// The token of one special character.
pub open spec fn special_tok(c: char) -> TokenV {
    if c == '|' {
        TokenV::Or
    } else if c == ';' {
        TokenV::Semicolon
    } else if c == '%' {
        TokenV::Percent
    } else if c == '^' {
        TokenV::Circumflex
    } else if c == '=' {
        TokenV::Equal
    } else if c == '(' {
        TokenV::LeftCirc
    } else if c == ')' {
        TokenV::RightCirc
    } else if c == ':' {
        TokenV::Colon
    } else {
        TokenV::Comma
    }
}

/// Executable form of [`is_special`].
fn is_special_exec(c: char) -> (r: bool)
    ensures
        r == is_special(c),
{
    c == '|' || c == ';' || c == '%' || c == '^' || c == '=' || c == '(' || c == ')' || c == ':'
        || c == ','
}

/// Executable form of [`special_tok`].
fn get_tokentype(c: char) -> (r: TokenType)
    requires
        is_special(c),
    ensures
        r.deep_view() == special_tok(c),
{
    if c == '|' {
        TokenType::Or
    } else if c == ';' {
        TokenType::Semicolon
    } else if c == '%' {
        TokenType::Percent
    } else if c == '^' {
        TokenType::Circumflex
    } else if c == '=' {
        TokenType::Equal
    } else if c == '(' {
        TokenType::LeftCirc
    } else if c == ')' {
        TokenType::RightCirc
    } else if c == ':' {
        TokenType::Colon
    } else {
        TokenType::Comma
    }
}

/// The digit part of a numeric token: everything after an optional leading
/// plus sign.
pub open spec fn strip_plus(s: Seq<char>) -> Seq<char> {
    if s.len() > 0 && s[0] == '+' {
        s.drop_first()
    } else {
        s
    }
}

/// Whether a flushed buffer parses as a numeric weight: an optional plus
/// sign, then one or more decimal digits, with a value that fits the machine
/// word (a larger value is classified as an identifier instead, as integer
/// parsing rejects it).
pub open spec fn is_count_str(s: Seq<char>) -> bool {
    let d = strip_plus(s);
    d.len() > 0 && (forall|i: int| 0 <= i < d.len() ==> is_digit(#[trigger] d[i])) && digits_val(d)
        <= usize::MAX
}

/// The numeric value of a buffer accepted by [`is_count_str`].
pub open spec fn count_val(s: Seq<char>) -> nat {
    digits_val(strip_plus(s))
}

/// A prefix of a digit string never evaluates above the whole string.
proof fn lemma_digits_prefix_le(s: Seq<char>, i: int)
    requires
        0 <= i <= s.len(),
    ensures
        digits_val(s.take(i)) <= digits_val(s),
    decreases s.len(),
{
    if i < s.len() {
        assert(s.drop_last().take(i) =~= s.take(i));
        lemma_digits_prefix_le(s.drop_last(), i);
        assert(digits_val(s) == digits_val(s.drop_last()) * 10 + digit_val(s.last()));
        assert(digits_val(s.drop_last()) * 10 >= digits_val(s.drop_last())) by (nonlinear_arith);
    } else {
        assert(s.take(i) =~= s);
    }
}

/// Parses a buffer as a numeric weight, mirroring integer parsing: `None`
/// exactly when the text is not an optionally signed digit string whose value
/// fits the machine word.
fn parse_count(s: &str) -> (r: Option<usize>)
    ensures
        match r {
            Some(n) => is_count_str(s@) && n as nat == count_val(s@),
            None => !is_count_str(s@),
        },
{
    let len = s.unicode_len();
    let start: usize = if len > 0 && s.get_char(0) == '+' {
        1
    } else {
        0
    };
    proof {
        assert(strip_plus(s@) =~= s@.subrange(start as int, len as int));
    }
    if start >= len {
        return None;
    }
    let mut acc: usize = 0;
    let mut i: usize = start;
    while i < len
        invariant
            start <= i <= len,
            len == s@.len(),
            strip_plus(s@) =~= s@.subrange(start as int, len as int),
            forall|j: int| start <= j < i ==> is_digit(#[trigger] s@[j]),
            acc as nat == digits_val(s@.subrange(start as int, i as int)),
        decreases len - i,
    {
        let c = s.get_char(i);
        if !('0' <= c && c <= '9') {
            proof {
                assert(strip_plus(s@)[i - start] == s@[i as int]);
            }
            return None;
        }
        let d = digit_val_exec(c);
        if acc > (usize::MAX - d) / 10 {
            proof {
                let whole = strip_plus(s@);
                let pre = s@.subrange(start as int, i + 1);
                assert(pre.drop_last() =~= s@.subrange(start as int, i as int));
                assert(digits_val(pre) == acc * 10 + d);
                assert(acc * 10 + d > usize::MAX) by (nonlinear_arith)
                    requires
                        acc > (usize::MAX - d) / 10,
                        d < 10,
                ;
                assert(pre =~= whole.take(i + 1 - start));
                lemma_digits_prefix_le(whole, i + 1 - start);
                assert(digits_val(whole) > usize::MAX);
            }
            return None;
        }
        proof {
            let pre = s@.subrange(start as int, i + 1);
            assert(pre.drop_last() =~= s@.subrange(start as int, i as int));
            assert(pre.last() == s@[i as int]);
            assert(acc * 10 + d <= usize::MAX) by (nonlinear_arith)
                requires
                    acc <= (usize::MAX - d) / 10,
                    d < 10,
            ;
        }
        acc = acc * 10 + d;
        i += 1;
    }
    proof {
        assert(s@.subrange(start as int, len as int) =~= strip_plus(s@));
    }
    Some(acc)
}

/// Classification of a flushed buffer: a number becomes a weight; a
/// quote-delimited buffer becomes a literal (or `Unknown` for a lone quote);
/// anything else is an identifier.
pub open spec fn classify(s: Seq<char>) -> TokenV {
    if is_count_str(s) {
        TokenV::Count(count_val(s))
    } else if s.len() >= 1 && s[0] == '"' && s.last() == '"' {
        if s.len() > 2 {
            TokenV::Value(s.subrange(1, s.len() - 1))
        } else if s.len() == 2 {
            TokenV::Value(Seq::empty())
        } else {
            TokenV::Unknown(s)
        }
    } else {
        TokenV::Variable(s)
    }
}

/// Executable form of [`classify`].
fn get_value(s: &str) -> (r: TokenType)
    ensures
        r.deep_view() == classify(s@),
{
    if let Some(n) = parse_count(s) {
        return TokenType::Count(n);
    }
    let len = s.unicode_len();
    if len >= 1 && s.get_char(0) == '"' && s.get_char(len - 1) == '"' {
        if len > 2 {
            let inner = s.substring_char(1, len - 1);
            TokenType::Value(inner.to_owned())
        } else if len == 2 {
            proof {
                assert(classify(s@) == TokenV::Value(Seq::<char>::empty()));
            }
            TokenType::Value(String::new())
        } else {
            TokenType::Unknown(s.to_owned())
        }
    } else {
        TokenType::Variable(s.to_owned())
    }
}

/// The sub-mode of the scanner.
#[derive(Debug, Clone, Copy, PartialEq, Eq, Structural)]
pub enum LexMode {
    /// Plain grammar text.
    Normal,
    /// Inside a quoted literal.
    Str,
    /// Inside a `#` comment, through end of line.
    Comment,
}

/// The whole state of the scanner: sub-mode, pending buffer, tokens so far.
pub struct LexSt {
    pub mode: LexMode,
    pub buf: Seq<char>,
    pub toks: Seq<TokenV>,
}

/// The scanner state before any character.
pub open spec fn lex_init() -> LexSt {
    LexSt { mode: LexMode::Normal, buf: Seq::empty(), toks: Seq::empty() }
}

/// Flushes the pending buffer, if any, as one classified token.
pub open spec fn flush_st(st: LexSt) -> LexSt {
    if st.buf.len() == 0 {
        st
    } else {
        LexSt { mode: st.mode, buf: Seq::empty(), toks: st.toks.push(classify(st.buf)) }
    }
}

/// One step of the scanner state machine on one character.
pub open spec fn lex_step(st: LexSt, c: char) -> LexSt {
    if st.mode == LexMode::Comment {
        if c == '\r' || c == '\n' {
            LexSt { mode: LexMode::Normal, buf: st.buf, toks: st.toks }
        } else {
            st
        }
    } else if is_space(c) {
        if st.mode == LexMode::Str {
            LexSt { mode: st.mode, buf: st.buf.push(c), toks: st.toks }
        } else {
            let st2 = flush_st(st);
            if c == '\r' || c == '\n' {
                LexSt { mode: st2.mode, buf: st2.buf, toks: st2.toks.push(TokenV::NewLine) }
            } else {
                st2
            }
        }
    } else if is_special(c) {
        let st2 = flush_st(st);
        LexSt { mode: st2.mode, buf: st2.buf, toks: st2.toks.push(special_tok(c)) }
    } else if c == '#' {
        let st2 = flush_st(st);
        LexSt { mode: LexMode::Comment, buf: st2.buf, toks: st2.toks }
    } else if c == '"' {
        if st.mode == LexMode::Str {
            let st2 = flush_st(
                LexSt { mode: st.mode, buf: st.buf.push('"'), toks: st.toks },
            );
            LexSt { mode: LexMode::Normal, buf: st2.buf, toks: st2.toks }
        } else {
            LexSt { mode: LexMode::Str, buf: st.buf.push('"'), toks: st.toks }
        }
    } else if c == '-' {
        if st.buf == seq!['<'] {
            LexSt { mode: st.mode, buf: Seq::empty(), toks: st.toks.push(TokenV::LeftArrow) }
        } else {
            let st2 = flush_st(st);
            LexSt { mode: st2.mode, buf: st2.buf, toks: st2.toks.push(TokenV::Minus) }
        }
    } else {
        LexSt { mode: st.mode, buf: st.buf.push(c), toks: st.toks }
    }
}

/// Folds the state machine over the remaining characters.
pub open spec fn lex_from(s: Seq<char>, st: LexSt) -> LexSt
    decreases s.len(),
{
    if s.len() == 0 {
        st
    } else {
        lex_from(s.drop_first(), lex_step(st, s[0]))
    }
}

/// The tokens of a whole grammar text. A buffer still pending at end of
/// input is dropped, as the scanner only emits on a delimiter.
pub open spec fn lex_spec(s: Seq<char>) -> Seq<TokenV> {
    lex_from(s, lex_init()).toks
}

/// Folding from position `i` is one step plus folding from `i + 1`.
proof fn lemma_lex_from_step(s: Seq<char>, i: int, st: LexSt)
    requires
        0 <= i < s.len(),
    ensures
        lex_from(s.skip(i), st) == lex_from(s.skip(i + 1), lex_step(st, s[i])),
{
    assert(s.skip(i).len() > 0);
    assert(s.skip(i)[0] == s[i]);
    assert(s.skip(i).drop_first() =~= s.skip(i + 1));
}

/// Tokenizes grammar text. Pure and total: unrecognized text surfaces as
/// [`TokenType::Unknown`] tokens rather than a failure.
pub fn lexer(text: &str) -> (r: Vec<TokenType>)
    ensures
        r.deep_view() == lex_spec(text@),
        r@.len() <= text@.len(),
{
    let len = text.unicode_len();
    let mut tokens: Vec<TokenType> = Vec::new();
    let mut buffer: String = String::new();
    let mut mode: LexMode = LexMode::Normal;
    let mut i: usize = 0;
    proof {
        assert(text@.skip(0) =~= text@);
        assert(tokens.deep_view() =~= Seq::<TokenV>::empty());
        assert(LexSt { mode: mode, buf: buffer@, toks: tokens.deep_view() } == lex_init());
    }
    while i < len
        invariant
            0 <= i <= len,
            len == text@.len(),
            buffer@.len() <= i,
            tokens@.len() + buffer@.len() <= i,
            lex_from(text@, lex_init()) == lex_from(
                text@.skip(i as int),
                LexSt { mode: mode, buf: buffer@, toks: tokens.deep_view() },
            ),
        decreases len - i,
    {
        let ghost st0 = LexSt { mode: mode, buf: buffer@, toks: tokens.deep_view() };
        let c = text.get_char(i);
        proof {
            lemma_lex_from_step(text@, i as int, st0);
        }
        if matches!(mode, LexMode::Comment) {
            if c == '\r' || c == '\n' {
                mode = LexMode::Normal;
            }
        } else if is_space_exec(c) {
            if matches!(mode, LexMode::Str) {
                push_char(&mut buffer, c);
            } else {
                if !buffer.as_str().is_empty() {
                    let t = get_value(buffer.as_str());
                    tokens.push(t);
                    buffer = String::new();
                }
                if c == '\r' || c == '\n' {
                    tokens.push(TokenType::NewLine);
                }
            }
        } else if is_special_exec(c) {
            if !buffer.as_str().is_empty() {
                let t = get_value(buffer.as_str());
                tokens.push(t);
                buffer = String::new();
            }
            tokens.push(get_tokentype(c));
        } else if c == '#' {
            if !buffer.as_str().is_empty() {
                let t = get_value(buffer.as_str());
                tokens.push(t);
                buffer = String::new();
            }
            mode = LexMode::Comment;
        } else if c == '"' {
            if matches!(mode, LexMode::Str) {
                mode = LexMode::Normal;
                push_char(&mut buffer, c);
                let t = get_value(buffer.as_str());
                tokens.push(t);
                buffer = String::new();
            } else {
                mode = LexMode::Str;
                push_char(&mut buffer, c);
            }
        } else if c == '-' {
            if buffer.as_str().unicode_len() == 1 && buffer.as_str().get_char(0) == '<' {
                proof {
                    assert(st0.buf =~= seq!['<']);
                }
                tokens.push(TokenType::LeftArrow);
                buffer = String::new();
            } else {
                proof {
                    assert(st0.buf != seq!['<']) by {
                        if st0.buf == seq!['<'] {
                            assert(st0.buf.len() == 1 && st0.buf[0] == '<');
                        }
                    }
                }
                if !buffer.as_str().is_empty() {
                    let t = get_value(buffer.as_str());
                    tokens.push(t);
                    buffer = String::new();
                }
                tokens.push(TokenType::Minus);
            }
        } else {
            push_char(&mut buffer, c);
        }
        proof {
            let st1 = LexSt { mode: mode, buf: buffer@, toks: tokens.deep_view() };
            assert(st1.toks =~= lex_step(st0, c).toks);
            assert(st1.buf =~= lex_step(st0, c).buf);
            assert(st1 == lex_step(st0, c));
        }
        i += 1;
    }
    proof {
        assert(text@.skip(len as int) =~= Seq::<char>::empty());
    }
    tokens
}

// ------------------------------------------------------------------
// Canonical rendering and the round trip: serializing a token stream
// to text through each token's canonical form and tokenizing that text
// again reproduces the stream.
// ------------------------------------------------------------------
/// The canonical source text of a token: its diagnostic text, except that a
/// line break renders as an actual line break.
pub open spec fn canonical_text(t: TokenV) -> Seq<char> {
    if t is NewLine {
        seq!['\n']
    } else {
        token_text(t)
    }
}

/// The canonical text of a whole token stream: each token's canonical text
/// followed by one space, so that every pending buffer is flushed.
pub open spec fn render_spec(ts: Seq<TokenV>) -> Seq<char>
    decreases ts.len(),
{
    if ts.len() == 0 {
        Seq::empty()
    } else {
        render_spec(ts.drop_last()) + canonical_text(ts.last()) + seq![' ']
    }
}

/// A character that neither delimits nor starts any token form: it can only
/// ever extend the pending buffer.
pub open spec fn is_plain(c: char) -> bool {
    !is_space(c) && !is_special(c) && c != '#' && c != '"' && c != '-'
}

/// The tokens whose canonical text survives the round trip: literals hold
/// no delimiter characters, identifiers are plain and not numeric, weights
/// fit the machine word, and nothing is `Unknown`.
pub open spec fn wf_token(t: TokenV) -> bool {
    match t {
        TokenV::Unknown(_) => false,
        TokenV::Value(s) => forall|i: int| 0 <= i < s.len() ==> is_plain(#[trigger] s[i]) || is_space(s[i]),
        TokenV::Count(n) => n <= usize::MAX,
        TokenV::Variable(s) => {
            &&& s.len() > 0
            &&& forall|i: int| 0 <= i < s.len() ==> is_plain(#[trigger] s[i])
            &&& !is_count_str(s)
        },
        _ => true,
    }
}

/// Renders a token stream as canonical grammar text.
pub fn render_tokens(tokens: &Vec<TokenType>) -> (r: String)
    ensures
        r@ == render_spec(tokens.deep_view()),
{
    let mut out = String::new();
    let n = tokens.len();
    let mut i: usize = 0;
    proof {
        assert(tokens.deep_view().take(0) =~= Seq::<TokenV>::empty());
        assert(out@ =~= render_spec(tokens.deep_view().take(0)));
    }
    while i < n
        invariant
            0 <= i <= n,
            n == tokens@.len(),
            out@ == render_spec(tokens.deep_view().take(i as int)),
        decreases n - i,
    {
        let ghost td = tokens.deep_view();
        match &tokens[i] {
            TokenType::NewLine => {
                out.append("\n");
                proof {
                    reveal_strlit("\n");
                    assert("\n"@ =~= seq!['\n']);
                }
            },
            t => {
                let text = t.to_text();
                out.append(text.as_str());
            },
        }
        out.append(" ");
        proof {
            reveal_strlit(" ");
            assert(" "@ =~= seq![' ']);
            assert(td.take(i + 1).drop_last() =~= td.take(i as int));
            assert(td.take(i + 1).last() == td[i as int]);
            assert(out@ =~= render_spec(td.take(i as int)) + canonical_text(td[i as int])
                + seq![' ']);
        }
        i += 1;
    }
    proof {
        assert(tokens.deep_view().take(n as int) =~= tokens.deep_view());
    }
    out
}

/// Folding text piecewise composes.
proof fn lemma_lex_append(a: Seq<char>, b: Seq<char>, st: LexSt)
    ensures
        lex_from(a + b, st) == lex_from(b, lex_from(a, st)),
    decreases a.len(),
{
    if a.len() == 0 {
        assert(a + b =~= b);
    } else {
        assert((a + b).len() > 0);
        assert((a + b)[0] == a[0]);
        assert((a + b).drop_first() =~= a.drop_first() + b);
        lemma_lex_append(a.drop_first(), b, lex_step(st, a[0]));
    }
}

/// Plain characters only ever extend the pending buffer.
proof fn lemma_buffer_chars(cs: Seq<char>, st: LexSt)
    requires
        st.mode == LexMode::Normal,
        forall|i: int| 0 <= i < cs.len() ==> is_plain(#[trigger] cs[i]),
    ensures
        lex_from(cs, st) == (LexSt { mode: LexMode::Normal, buf: st.buf + cs, toks: st.toks }),
    decreases cs.len(),
{
    if cs.len() == 0 {
        assert(st.buf + cs =~= st.buf);
    } else {
        let st1 = lex_step(st, cs[0]);
        assert(st1 == LexSt {
            mode: LexMode::Normal,
            buf: st.buf.push(cs[0]),
            toks: st.toks,
        });
        lemma_buffer_chars(cs.drop_first(), st1);
        assert(st.buf.push(cs[0]) + cs.drop_first() =~= st.buf + cs);
    }
}

/// Inside a literal, plain characters and whitespace extend the buffer.
proof fn lemma_string_chars(cs: Seq<char>, st: LexSt)
    requires
        st.mode == LexMode::Str,
        forall|i: int| 0 <= i < cs.len() ==> is_plain(#[trigger] cs[i]) || is_space(cs[i]),
    ensures
        lex_from(cs, st) == (LexSt { mode: LexMode::Str, buf: st.buf + cs, toks: st.toks }),
    decreases cs.len(),
{
    if cs.len() == 0 {
        assert(st.buf + cs =~= st.buf);
    } else {
        let st1 = lex_step(st, cs[0]);
        assert(st1 == LexSt { mode: LexMode::Str, buf: st.buf.push(cs[0]), toks: st.toks });
        lemma_string_chars(cs.drop_first(), st1);
        assert(st.buf.push(cs[0]) + cs.drop_first() =~= st.buf + cs);
    }
}

/// A quote-delimited buffer classifies as the literal between the quotes.
proof fn lemma_classify_quoted(s: Seq<char>)
    ensures
        classify(seq!['"'] + s + seq!['"']) == TokenV::Value(s),
{
    let quoted = seq!['"'] + s + seq!['"'];
    assert(quoted.len() == s.len() + 2);
    assert(quoted[0] == '"');
    assert(quoted.last() == '"');
    assert(!is_count_str(quoted)) by {
        assert(strip_plus(quoted) == quoted);
        assert(!crate::strutil::is_digit(quoted[0]));
    }
    if s.len() == 0 {
        assert(quoted.len() == 2);
        assert(classify(quoted) == TokenV::Value(Seq::<char>::empty()));
        assert(s =~= Seq::<char>::empty());
    } else {
        assert(quoted.len() > 2);
        assert(quoted.subrange(1, quoted.len() - 1) =~= s);
    }
}

/// Scanning one well-formed literal token's canonical text plus one space.
proof fn lemma_cycle_value(s: Seq<char>, st: LexSt)
    requires
        st.mode == LexMode::Normal,
        st.buf =~= Seq::<char>::empty(),
        wf_token(TokenV::Value(s)),
    ensures
        lex_from(canonical_text(TokenV::Value(s)) + seq![' '], st) == (LexSt {
            mode: LexMode::Normal,
            buf: Seq::empty(),
            toks: st.toks.push(TokenV::Value(s)),
        }),
{
    reveal_with_fuel(lex_from, 3);
    let t = TokenV::Value(s);
    let quoted = seq!['"'] + s + seq!['"'];
    let text = canonical_text(t) + seq![' '];
    assert(canonical_text(t) =~= quoted);
    assert(text =~= seq!['"'] + (s + (seq!['"'] + seq![' '])));
    let st1 = lex_step(st, '"');
    assert(st1 == (LexSt { mode: LexMode::Str, buf: seq!['"'], toks: st.toks })) by {
        assert(st.buf.push('"') =~= seq!['"']);
    }
    lemma_lex_append(seq!['"'], s + (seq!['"'] + seq![' ']), st);
    assert(lex_from(seq!['"'], st) == st1) by {
        assert(seq!['"'].drop_first() =~= Seq::<char>::empty());
    }
    lemma_lex_append(s, seq!['"'] + seq![' '], st1);
    lemma_string_chars(s, st1);
    let st2 = LexSt { mode: LexMode::Str, buf: seq!['"'] + s, toks: st.toks };
    assert(lex_from(s, st1) == st2) by {
        assert(seq!['"'] + s =~= st1.buf + s);
    }
    lemma_lex_append(seq!['"'], seq![' '], st2);
    let st3 = lex_step(st2, '"');
    lemma_classify_quoted(s);
    assert(st3 == (LexSt { mode: LexMode::Normal, buf: Seq::empty(), toks: st.toks.push(t) }))
        by {
        assert(st2.buf.push('"') =~= quoted);
    }
    assert(lex_from(seq!['"'], st2) == st3) by {
        assert(seq!['"'].drop_first() =~= Seq::<char>::empty());
    }
    let st4 = lex_step(st3, ' ');
    assert(st4 == st3);
    assert(lex_from(seq![' '], st3) == st4) by {
        assert(seq![' '].drop_first() =~= Seq::<char>::empty());
    }
}

/// Scanning one weight token's canonical text plus one space.
proof fn lemma_cycle_count(n: nat, st: LexSt)
    requires
        st.mode == LexMode::Normal,
        st.buf =~= Seq::<char>::empty(),
        wf_token(TokenV::Count(n)),
    ensures
        lex_from(canonical_text(TokenV::Count(n)) + seq![' '], st) == (LexSt {
            mode: LexMode::Normal,
            buf: Seq::empty(),
            toks: st.toks.push(TokenV::Count(n)),
        }),
{
    reveal_with_fuel(lex_from, 3);
    let t = TokenV::Count(n);
    let ds = crate::strutil::dec_digits(n);
    crate::strutil::lemma_dec_digits_val(n);
    assert(canonical_text(t) =~= ds);
    assert(forall|i: int| 0 <= i < ds.len() ==> is_plain(#[trigger] ds[i])) by {
        assert(forall|i: int| 0 <= i < ds.len() ==> crate::strutil::is_digit(#[trigger] ds[i]));
    }
    lemma_lex_append(ds, seq![' '], st);
    lemma_buffer_chars(ds, st);
    let st1 = LexSt { mode: LexMode::Normal, buf: ds, toks: st.toks };
    assert(lex_from(ds, st) == st1) by {
        assert(st.buf + ds =~= ds);
    }
    assert(is_count_str(ds) && count_val(ds) == n) by {
        assert(crate::strutil::is_digit(ds[0]));
        assert(strip_plus(ds) == ds);
    }
    assert(classify(ds) == TokenV::Count(n));
    let st2 = lex_step(st1, ' ');
    assert(st2 == (LexSt { mode: LexMode::Normal, buf: Seq::empty(), toks: st.toks.push(t) }));
    assert(lex_from(seq![' '], st1) == st2) by {
        assert(seq![' '].drop_first() =~= Seq::<char>::empty());
    }
}

/// Scanning one identifier token's canonical text plus one space.
proof fn lemma_cycle_variable(s: Seq<char>, st: LexSt)
    requires
        st.mode == LexMode::Normal,
        st.buf =~= Seq::<char>::empty(),
        wf_token(TokenV::Variable(s)),
    ensures
        lex_from(canonical_text(TokenV::Variable(s)) + seq![' '], st) == (LexSt {
            mode: LexMode::Normal,
            buf: Seq::empty(),
            toks: st.toks.push(TokenV::Variable(s)),
        }),
{
    reveal_with_fuel(lex_from, 3);
    let t = TokenV::Variable(s);
    assert(canonical_text(t) =~= s);
    lemma_lex_append(s, seq![' '], st);
    lemma_buffer_chars(s, st);
    let st1 = LexSt { mode: LexMode::Normal, buf: s, toks: st.toks };
    assert(lex_from(s, st) == st1) by {
        assert(st.buf + s =~= s);
    }
    assert(classify(s) == t) by {
        assert(s[0] != '"');
    }
    let st2 = lex_step(st1, ' ');
    assert(st2 == (LexSt { mode: LexMode::Normal, buf: Seq::empty(), toks: st.toks.push(t) }));
    assert(lex_from(seq![' '], st1) == st2) by {
        assert(seq![' '].drop_first() =~= Seq::<char>::empty());
    }
}

/// Scanning one well-formed token's canonical text plus one space, from a
/// neutral state, emits exactly that token and returns to the neutral
/// state.
proof fn lemma_token_cycle(t: TokenV, st: LexSt)
    requires
        st.mode == LexMode::Normal,
        st.buf =~= Seq::<char>::empty(),
        wf_token(t),
    ensures
        lex_from(canonical_text(t) + seq![' '], st) == (LexSt {
            mode: LexMode::Normal,
            buf: Seq::empty(),
            toks: st.toks.push(t),
        }),
{
    reveal_with_fuel(lex_from, 5);
    reveal_strlit("-");
    reveal_strlit("|");
    reveal_strlit("=");
    reveal_strlit("^");
    reveal_strlit("%");
    reveal_strlit(";");
    reveal_strlit("(");
    reveal_strlit(")");
    reveal_strlit(":");
    reveal_strlit("<-");
    reveal_strlit(",");
    let text = canonical_text(t) + seq![' '];
    match t {
        TokenV::Unknown(_) => {},
        TokenV::Value(s) => {
            lemma_cycle_value(s, st);
        },
        TokenV::Count(n) => {
            lemma_cycle_count(n, st);
        },
        TokenV::Variable(s) => {
            lemma_cycle_variable(s, st);
        },
        TokenV::NewLine => {
            assert(canonical_text(t) =~= seq!['\n']);
            assert(text =~= seq!['\n', ' ']);
            let st1 = lex_step(st, '\n');
            assert(st1 == (LexSt {
                mode: LexMode::Normal,
                buf: Seq::empty(),
                toks: st.toks.push(TokenV::NewLine),
            }));
            let st2 = lex_step(st1, ' ');
            assert(st2 == st1);
            assert(lex_from(text, st) == st2) by {
                assert(text.drop_first() =~= seq![' ']);
                assert(text.drop_first().drop_first() =~= Seq::<char>::empty());
            }
        },
        TokenV::LeftArrow => {
            assert(canonical_text(t) =~= seq!['<', '-']);
            assert(text =~= seq!['<', '-', ' ']);
            let st1 = lex_step(st, '<');
            assert(is_plain('<'));
            assert(st1 == (LexSt { mode: LexMode::Normal, buf: st.buf.push('<'), toks: st.toks }));
            assert(st1.buf =~= seq!['<']);
            let st2 = lex_step(st1, '-');
            assert(st2 == (LexSt {
                mode: LexMode::Normal,
                buf: Seq::empty(),
                toks: st.toks.push(TokenV::LeftArrow),
            }));
            let st3 = lex_step(st2, ' ');
            assert(st3 == st2);
            assert(lex_from(text, st) == st3) by {
                assert(text.drop_first() =~= seq!['-', ' ']);
                assert(text.drop_first().drop_first() =~= seq![' ']);
                assert(text.drop_first().drop_first().drop_first() =~= Seq::<char>::empty());
            }
        },
        TokenV::Minus => {
            assert(canonical_text(t) =~= seq!['-']);
            assert(text =~= seq!['-', ' ']);
            let st1 = lex_step(st, '-');
            assert(st.buf != seq!['<']);
            assert(st1 == (LexSt {
                mode: LexMode::Normal,
                buf: Seq::empty(),
                toks: st.toks.push(TokenV::Minus),
            }));
            let st2 = lex_step(st1, ' ');
            assert(st2 == st1);
            assert(lex_from(text, st) == st2) by {
                assert(text.drop_first() =~= seq![' ']);
                assert(text.drop_first().drop_first() =~= Seq::<char>::empty());
            }
        },
        _ => {
            let c = canonical_text(t)[0];
            assert(canonical_text(t) =~= seq![c]);
            assert(text =~= seq![c, ' ']);
            assert(is_special(c) && special_tok(c) == t);
            let st1 = lex_step(st, c);
            assert(st1 == (LexSt {
                mode: LexMode::Normal,
                buf: Seq::empty(),
                toks: st.toks.push(t),
            }));
            let st2 = lex_step(st1, ' ');
            assert(st2 == st1);
            assert(lex_from(text, st) == st2) by {
                assert(text.drop_first() =~= seq![' ']);
                assert(text.drop_first().drop_first() =~= Seq::<char>::empty());
            }
        },
    }
}

/// Round trip: rendering a stream of well-formed tokens to canonical text
/// and tokenizing that text again reproduces exactly the same token stream.
pub proof fn lemma_tokens_round_trip(ts: Seq<TokenV>)
    requires
        forall|i: int| 0 <= i < ts.len() ==> wf_token(#[trigger] ts[i]),
    ensures
        lex_spec(render_spec(ts)) == ts,
    decreases ts.len(),
{
    if ts.len() == 0 {
        assert(lex_spec(render_spec(ts)) =~= ts);
    } else {
        assert(forall|i: int| 0 <= i < ts.len() - 1 ==> ts.drop_last()[i] == #[trigger] ts[i]);
        lemma_tokens_round_trip(ts.drop_last());
        lemma_rendered_state(ts.drop_last());
        let mid = LexSt { mode: LexMode::Normal, buf: Seq::empty(), toks: ts.drop_last() };
        let piece = canonical_text(ts.last()) + seq![' '];
        assert(render_spec(ts) =~= render_spec(ts.drop_last()) + piece);
        lemma_lex_append(render_spec(ts.drop_last()), piece, lex_init());
        lemma_token_cycle(ts.last(), mid);
        assert(lex_from(render_spec(ts), lex_init()).toks =~= ts.drop_last().push(ts.last()));
        assert(ts.drop_last().push(ts.last()) =~= ts);
    }
}

/// Scanning the rendering of well-formed tokens ends in the neutral state
/// with exactly those tokens.
proof fn lemma_rendered_state(ts: Seq<TokenV>)
    requires
        forall|i: int| 0 <= i < ts.len() ==> wf_token(#[trigger] ts[i]),
    ensures
        lex_from(render_spec(ts), lex_init()) == (LexSt {
            mode: LexMode::Normal,
            buf: Seq::empty(),
            toks: ts,
        }),
    decreases ts.len(),
{
    if ts.len() == 0 {
        assert(lex_from(render_spec(ts), lex_init()) == lex_init());
        assert(lex_init() == LexSt { mode: LexMode::Normal, buf: Seq::empty(), toks: ts }) by {
            assert(ts =~= Seq::<TokenV>::empty());
        }
    } else {
        assert(forall|i: int| 0 <= i < ts.len() - 1 ==> ts.drop_last()[i] == #[trigger] ts[i]);
        lemma_rendered_state(ts.drop_last());
        let mid = LexSt { mode: LexMode::Normal, buf: Seq::empty(), toks: ts.drop_last() };
        let piece = canonical_text(ts.last()) + seq![' '];
        assert(render_spec(ts) =~= render_spec(ts.drop_last()) + piece);
        lemma_lex_append(render_spec(ts.drop_last()), piece, lex_init());
        lemma_token_cycle(ts.last(), mid);
        assert(ts.drop_last().push(ts.last()) =~= ts);
    }
}

/// Classification of one pre-split lexical fragment: the fixed operator
/// spellings map to their tokens; a quote-delimited fragment is a literal;
/// a number is a weight; anything else is an identifier.
pub open spec fn classify_fragment(s: Seq<char>) -> TokenV {
    if s == seq!['-'] {
        TokenV::Minus
    } else if s == seq!['|'] {
        TokenV::Or
    } else if s == seq!['%'] {
        TokenV::Percent
    } else if s == seq!['^'] {
        TokenV::Circumflex
    } else if s == seq!['='] {
        TokenV::Equal
    } else if s == seq![';'] {
        TokenV::Semicolon
    } else if s == seq!['('] {
        TokenV::LeftCirc
    } else if s == seq![')'] {
        TokenV::RightCirc
    } else if s == seq![':'] {
        TokenV::Colon
    } else if s == seq![','] {
        TokenV::Comma
    } else if s == seq!['<', '-'] {
        TokenV::LeftArrow
    } else if s.len() >= 1 && s[0] == '"' && s.last() == '"' {
        if s.len() > 2 {
            TokenV::Value(s.subrange(1, s.len() - 1))
        } else if s.len() == 2 {
            TokenV::Value(Seq::empty())
        } else {
            TokenV::Unknown(s)
        }
    } else if is_count_str(s) {
        TokenV::Count(count_val(s))
    } else {
        TokenV::Variable(s)
    }
}

/// The tokens of a fragment list.
pub open spec fn lex_fragments_spec(frags: Seq<Seq<char>>) -> Seq<TokenV> {
    Seq::new(frags.len(), |i: int| classify_fragment(frags[i]))
}

/// Tokenizes a pre-split list of lexical fragments, each fragment being one
/// whole token's text. Used by compile-time grammar embedding, where fragment
/// boundaries are already known.
pub fn lexer_by_vec(values: Vec<&str>) -> (r: Vec<TokenType>)
    ensures
        r.deep_view() == lex_fragments_spec(values.deep_view()),
{
    let mut tokens: Vec<TokenType> = Vec::new();
    let n = values.len();
    let mut i: usize = 0;
    while i < n
        invariant
            0 <= i <= n,
            n == values@.len(),
            tokens.deep_view() =~= lex_fragments_spec(values.deep_view()).take(i as int),
        decreases n - i,
    {
        let value = values[i];
        proof {
            reveal_strlit("-");
            reveal_strlit("|");
            reveal_strlit("%");
            reveal_strlit("^");
            reveal_strlit("=");
            reveal_strlit(";");
            reveal_strlit("(");
            reveal_strlit(")");
            reveal_strlit(":");
            reveal_strlit(",");
            reveal_strlit("<-");
            assert("-"@ =~= seq!['-']);
            assert("|"@ =~= seq!['|']);
            assert("%"@ =~= seq!['%']);
            assert("^"@ =~= seq!['^']);
            assert("="@ =~= seq!['=']);
            assert(";"@ =~= seq![';']);
            assert("("@ =~= seq!['(']);
            assert(")"@ =~= seq![')']);
            assert(":"@ =~= seq![':']);
            assert(","@ =~= seq![',']);
            assert("<-"@ =~= seq!['<', '-']);
        }
        let t: TokenType = if str_eq(value, "-") {
            TokenType::Minus
        } else if str_eq(value, "|") {
            TokenType::Or
        } else if str_eq(value, "%") {
            TokenType::Percent
        } else if str_eq(value, "^") {
            TokenType::Circumflex
        } else if str_eq(value, "=") {
            TokenType::Equal
        } else if str_eq(value, ";") {
            TokenType::Semicolon
        } else if str_eq(value, "(") {
            TokenType::LeftCirc
        } else if str_eq(value, ")") {
            TokenType::RightCirc
        } else if str_eq(value, ":") {
            TokenType::Colon
        } else if str_eq(value, ",") {
            TokenType::Comma
        } else if str_eq(value, "<-") {
            TokenType::LeftArrow
        } else {
            let len = value.unicode_len();
            if len >= 1 && value.get_char(0) == '"' && value.get_char(len - 1) == '"' {
                if len > 2 {
                    let inner = value.substring_char(1, len - 1);
                    TokenType::Value(inner.to_owned())
                } else if len == 2 {
                    TokenType::Value(String::new())
                } else {
                    TokenType::Unknown(value.to_owned())
                }
            } else if let Some(count) = parse_count(value) {
                TokenType::Count(count)
            } else {
                TokenType::Variable(value.to_owned())
            }
        };
        proof {
            assert(values.deep_view()[i as int] == value@);
            assert(t.deep_view() == classify_fragment(value@));
        }
        let ghost old_deep = tokens.deep_view();
        tokens.push(t);
        proof {
            let frags = values.deep_view();
            let whole = lex_fragments_spec(frags);
            assert(old_deep.len() == i as int);
            assert(tokens@.len() == i + 1);
            assert(tokens.deep_view().len() == i + 1);
            assert forall|j: int| 0 <= j < i + 1 implies tokens.deep_view()[j] == whole.take(
                i + 1,
            )[j] by {
                assert(whole[j] == classify_fragment(frags[j]));
                if j < i as int {
                    assert(tokens.deep_view()[j] == old_deep[j]);
                } else {
                    assert(tokens@[j] == t);
                }
            }
            assert(tokens.deep_view() =~= whole.take(i + 1));
        }
        i += 1;
    }
    proof {
        assert(lex_fragments_spec(values.deep_view()).take(n as int) =~= lex_fragments_spec(
            values.deep_view(),
        ));
    }
    tokens
}

} // verus!
