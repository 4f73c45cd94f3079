//! The lexer: one command line to a flat sequence of tokens.

use vstd::prelude::*;

use super::ParseError;
use crate::builtins::declare::{
    is_valid_identifier, needs_escape, spec_escape, spec_is_valid_identifier,
};
use crate::numtext::join;
use crate::strmap::StringMap;
use crate::text::{
    chars_of, is_name_cont, is_name_start, is_whitespace, push_char, spec_is_name_cont,
    spec_is_name_start, spec_is_whitespace, string_from_chars,
};

verus! {

/// Where the lexer stands with respect to quoting.
#[derive(Debug, Clone, Copy, PartialEq, Eq)]
pub enum QuoteMode {
    /// Outside quotes.
    Unquoted,
    /// Inside `'...'`.
    Single,
    /// Inside `"..."`.
    Double,
}

/// The lexer's state between two steps: the tokens finished so far, the
/// token being built, whether a token has started, whether every character
/// of that token so far was typed bare (outside quotes, not escaped, not
/// from an expansion), and the quoting mode.
pub struct LexState {
    pub tokens: Seq<Seq<char>>,
    pub cur: Seq<char>,
    pub in_token: bool,
    pub bare: bool,
    pub mode: QuoteMode,
}

/// The state at the start of a line.
pub open spec fn lex_start() -> LexState {
    LexState { tokens: seq![], cur: seq![], in_token: false, bare: true, mode: QuoteMode::Unquoted }
}

/// The state once the current token holds something that was not typed
/// bare: a quote, an escape or an expansion.
pub open spec fn lex_unbare(st: LexState) -> LexState {
    LexState { bare: false, ..st }
}

/// The value of variable `name`; an unset variable expands to nothing.
pub open spec fn var_value(vars: Map<Seq<char>, Seq<char>>, name: Seq<char>) -> Seq<char> {
    if vars.dom().contains(name) {
        vars[name]
    } else {
        seq![]
    }
}

/// The end of the run of name characters of `s` that starts at `j`.
pub open spec fn name_end(s: Seq<char>, j: int) -> int
    decreases s.len() - j,
{
    if 0 <= j < s.len() && spec_is_name_cont(s[j]) {
        name_end(s, j + 1)
    } else {
        j
    }
}

pub proof fn lemma_name_end(s: Seq<char>, j: int)
    requires
        0 <= j <= s.len(),
    ensures
        j <= name_end(s, j) <= s.len(),
        forall|k: int| j <= k < name_end(s, j) ==> spec_is_name_cont(#[trigger] s[k]),
        name_end(s, j) == s.len() || !spec_is_name_cont(s[name_end(s, j)]),
    decreases s.len() - j,
{
    if j < s.len() && spec_is_name_cont(s[j]) {
        lemma_name_end(s, j + 1);
    }
}

/// The position of the first `}` of `s` at or after `j`, or the length of
/// `s` when there is none.
pub open spec fn brace_close(s: Seq<char>, j: int) -> int
    decreases s.len() - j,
{
    if 0 <= j < s.len() && s[j] != '}' {
        brace_close(s, j + 1)
    } else {
        j
    }
}

pub proof fn lemma_brace_close(s: Seq<char>, j: int)
    requires
        0 <= j <= s.len(),
    ensures
        j <= brace_close(s, j) <= s.len(),
        forall|k: int| j <= k < brace_close(s, j) ==> #[trigger] s[k] != '}',
        brace_close(s, j) == s.len() || s[brace_close(s, j)] == '}',
    decreases s.len() - j,
{
    if j < s.len() && s[j] != '}' {
        lemma_brace_close(s, j + 1);
    }
}

/// A run of name characters up to the end of `s` is read whole.
pub proof fn lemma_name_end_all(s: Seq<char>, j: int)
    requires
        0 <= j <= s.len(),
        forall|k: int| j <= k < s.len() ==> spec_is_name_cont(#[trigger] s[k]),
    ensures
        name_end(s, j) == s.len(),
    decreases s.len() - j,
{
    if j < s.len() {
        lemma_name_end_all(s, j + 1);
    }
}

/// The redirection operator made of one `>` or, with `append`, of two.
pub open spec fn gt_op(append: bool) -> Seq<char> {
    if append {
        seq!['>', '>']
    } else {
        seq!['>']
    }
}

/// The state after outside-quotes whitespace.
pub open spec fn lex_space(st: LexState) -> LexState {
    if st.in_token {
        LexState { tokens: st.tokens.push(st.cur), cur: seq![], in_token: false, bare: true, ..st }
    } else {
        st
    }
}

/// The state after the single-character operator `op` (`|` or `&`).
pub open spec fn lex_single_op(st: LexState, op: char) -> LexState {
    let toks = if st.in_token {
        st.tokens.push(st.cur)
    } else {
        st.tokens
    };
    let cur = if st.in_token {
        seq![]
    } else {
        st.cur
    };
    LexState { tokens: toks.push(seq![op]), cur: cur, in_token: false, bare: true, mode: st.mode }
}

/// The state after a `>` or `>>`: a token that is exactly a bare `1` or
/// `2` (no quote, escape or expansion in it) merges into the operator
/// (`1>`, `2>>`, ...); any other started token is ended.
pub open spec fn lex_gt(st: LexState, append: bool) -> LexState {
    if st.in_token && st.bare && st.cur == seq!['1'] {
        LexState {
            tokens: st.tokens.push(seq!['1'] + gt_op(append)),
            cur: seq![],
            in_token: false,
            bare: true,
            ..st
        }
    } else if st.in_token && st.bare && st.cur == seq!['2'] {
        LexState {
            tokens: st.tokens.push(seq!['2'] + gt_op(append)),
            cur: seq![],
            in_token: false,
            bare: true,
            ..st
        }
    } else if st.in_token {
        LexState {
            tokens: st.tokens.push(st.cur).push(gt_op(append)),
            cur: seq![],
            in_token: false,
            bare: true,
            ..st
        }
    } else {
        LexState { tokens: st.tokens.push(gt_op(append)), in_token: false, bare: true, ..st }
    }
}

/// The state after appending the character `c` to the current token.
pub open spec fn lex_push(st: LexState, c: char, start: bool) -> LexState {
    LexState { cur: st.cur.push(c), in_token: st.in_token || start, ..st }
}

/// The state after appending `text` to the current token.
pub open spec fn lex_append(st: LexState, text: Seq<char>, start: bool) -> LexState {
    LexState { cur: st.cur + text, in_token: st.in_token || start, ..st }
}

/// The result once the whole line is read.
pub open spec fn lex_finish(st: LexState) -> Result<Seq<Seq<char>>, ParseError> {
    match st.mode {
        QuoteMode::Single => Err(ParseError::UnterminatedSingleQuote),
        QuoteMode::Double => Err(ParseError::UnterminatedDoubleQuote),
        QuoteMode::Unquoted => Ok(
            if st.in_token {
                st.tokens.push(st.cur)
            } else {
                st.tokens
            },
        ),
    }
}

/// Whether a backslash inside double quotes escapes `c`.
pub open spec fn dq_escapable(c: char) -> bool {
    c == '"' || c == '\\' || c == '$' || c == '`'
}

/// Lexing of `s` from position `i` on, in state `st`.
pub open spec fn lex(s: Seq<char>, i: int, st: LexState, vars: Map<Seq<char>, Seq<char>>) -> Result<
    Seq<Seq<char>>,
    ParseError,
>
    decreases s.len() - i,
{
    if i < 0 || i >= s.len() {
        lex_finish(st)
    } else {
        let c = s[i];
        match st.mode {
            QuoteMode::Unquoted => {
                if c == '\\' {
                    if i + 1 < s.len() {
                        lex(s, i + 2, lex_push(lex_unbare(st), s[i + 1], true), vars)
                    } else {
                        Err(ParseError::TrailingBackslash)
                    }
                } else if c == '$' {
                    if i + 1 < s.len() && s[i + 1] == '{' {
                        let k = brace_close(s, i + 2);
                        proof {
                            lemma_brace_close(s, i + 2);
                        }
                        if k >= s.len() {
                            Err(ParseError::UnterminatedBraceExpansion)
                        } else if !spec_is_valid_identifier(s.subrange(i + 2, k)) {
                            Err(ParseError::BadSubstitution)
                        } else {
                            lex(
                                s,
                                k + 1,
                                lex_append(lex_unbare(st), var_value(vars, s.subrange(i + 2, k)), true),
                                vars,
                            )
                        }
                    } else if i + 1 < s.len() && spec_is_name_start(s[i + 1]) {
                        let e = name_end(s, i + 1);
                        proof {
                            lemma_name_end(s, i + 1);
                        }
                        lex(
                            s,
                            e,
                            lex_append(lex_unbare(st), var_value(vars, s.subrange(i + 1, e)), true),
                            vars,
                        )
                    } else {
                        lex(s, i + 1, lex_push(lex_unbare(st), '$', true), vars)
                    }
                } else if c == '\'' {
                    lex(s, i + 1, LexState { mode: QuoteMode::Single, in_token: true, bare: false, ..st }, vars)
                } else if c == '"' {
                    lex(s, i + 1, LexState { mode: QuoteMode::Double, in_token: true, bare: false, ..st }, vars)
                } else if c == '>' {
                    let append = i + 1 < s.len() && s[i + 1] == '>';
                    lex(s, if append { i + 2 } else { i + 1 }, lex_gt(st, append), vars)
                } else if c == '|' || c == '&' {
                    lex(s, i + 1, lex_single_op(st, c), vars)
                } else if spec_is_whitespace(c) {
                    lex(s, i + 1, lex_space(st), vars)
                } else {
                    lex(s, i + 1, lex_push(st, c, true), vars)
                }
            },
            QuoteMode::Single => {
                if c == '\'' {
                    lex(s, i + 1, LexState { mode: QuoteMode::Unquoted, ..st }, vars)
                } else {
                    lex(s, i + 1, lex_push(st, c, false), vars)
                }
            },
            QuoteMode::Double => {
                if c == '"' {
                    lex(s, i + 1, LexState { mode: QuoteMode::Unquoted, ..st }, vars)
                } else if c == '\\' {
                    if i + 1 < s.len() && dq_escapable(s[i + 1]) {
                        lex(s, i + 2, lex_push(st, s[i + 1], false), vars)
                    } else {
                        lex(s, i + 1, lex_push(st, '\\', false), vars)
                    }
                } else if c == '$' {
                    if i + 1 < s.len() && s[i + 1] == '{' {
                        let k = brace_close(s, i + 2);
                        proof {
                            lemma_brace_close(s, i + 2);
                        }
                        if k >= s.len() {
                            Err(ParseError::UnterminatedBraceExpansion)
                        } else if !spec_is_valid_identifier(s.subrange(i + 2, k)) {
                            Err(ParseError::BadSubstitution)
                        } else {
                            lex(s, k + 1, lex_append(st, var_value(vars, s.subrange(i + 2, k)), false), vars)
                        }
                    } else if i + 1 < s.len() && spec_is_name_start(s[i + 1]) {
                        let e = name_end(s, i + 1);
                        proof {
                            lemma_name_end(s, i + 1);
                        }
                        lex(s, e, lex_append(st, var_value(vars, s.subrange(i + 1, e)), false), vars)
                    } else {
                        lex(s, i + 1, lex_push(st, '$', false), vars)
                    }
                } else {
                    lex(s, i + 1, lex_push(st, c, false), vars)
                }
            },
        }
    }
}

/// The tokens of the line `s`, with variables taken from `vars`.
pub open spec fn spec_tokenize(s: Seq<char>, vars: Map<Seq<char>, Seq<char>>) -> Result<
    Seq<Seq<char>>,
    ParseError,
> {
    lex(s, 0, lex_start(), vars)
}

/// A run of single-quoted text without `'` is appended as it stands.
proof fn lemma_lex_single_run(
    s: Seq<char>,
    i: int,
    st: LexState,
    t: Seq<char>,
    vars: Map<Seq<char>, Seq<char>>,
)
    requires
        st.mode == QuoteMode::Single,
        0 <= i,
        i + t.len() <= s.len(),
        s.subrange(i, i + t.len()) == t,
        forall|k: int| 0 <= k < t.len() ==> #[trigger] t[k] != '\'',
    ensures
        lex(s, i, st, vars) == lex(s, i + t.len(), LexState { cur: st.cur + t, ..st }, vars),
    decreases t.len(),
{
    if t.len() == 0 {
        assert(st.cur + t =~= st.cur);
        assert(LexState { cur: st.cur + t, ..st } == st);
    } else {
        let u = t.drop_last();
        assert(s.subrange(i, i + u.len()) =~= u);
        lemma_lex_single_run(s, i, st, u, vars);
        let j = i + u.len();
        let mid = LexState { cur: st.cur + u, ..st };
        assert(s[j] == t.last()) by {
            assert(s.subrange(i, i + t.len())[u.len() as int] == s[j]);
        }
        assert(t[t.len() - 1] != '\'');
        assert(lex(s, j, mid, vars) == lex(s, j + 1, lex_push(mid, t.last(), false), vars));
        assert(mid.cur.push(t.last()) =~= st.cur + t);
    }
}

/// Text escaped for double quotes, read inside double quotes, is appended
/// as the text it came from.
pub proof fn lemma_lex_dq_escaped(
    s: Seq<char>,
    i: int,
    st: LexState,
    v: Seq<char>,
    vars: Map<Seq<char>, Seq<char>>,
)
    requires
        st.mode == QuoteMode::Double,
        0 <= i,
        i + spec_escape(v).len() <= s.len(),
        s.subrange(i, i + spec_escape(v).len()) == spec_escape(v),
    ensures
        lex(s, i, st, vars) == lex(
            s,
            i + spec_escape(v).len(),
            LexState { cur: st.cur + v, ..st },
            vars,
        ),
    decreases v.len(),
{
    if v.len() == 0 {
        assert(st.cur + v =~= st.cur);
        assert(LexState { cur: st.cur + v, ..st } == st);
    } else {
        let u = v.drop_last();
        let c = v.last();
        let e = spec_escape(v);
        let eu = spec_escape(u);
        assert(e == eu + if needs_escape(c) {
            seq!['\\', c]
        } else {
            seq![c]
        });
        assert(s.subrange(i, i + eu.len()) =~= eu) by {
            assert forall|k: int| 0 <= k < eu.len() implies s.subrange(i, i + eu.len())[k] == eu[k] by {
                assert(s.subrange(i, i + e.len())[k] == e[k]);
            }
        }
        lemma_lex_dq_escaped(s, i, st, u, vars);
        let j = i + eu.len();
        let mid = LexState { cur: st.cur + u, ..st };
        assert(s[j] == e[eu.len() as int]) by {
            assert(s.subrange(i, i + e.len())[eu.len() as int] == s[j]);
        }
        if needs_escape(c) {
            assert(s[j + 1] == e[eu.len() as int + 1]) by {
                assert(s.subrange(i, i + e.len())[eu.len() as int + 1] == s[j + 1]);
            }
            assert(lex(s, j, mid, vars) == lex(s, j + 2, lex_push(mid, c, false), vars));
        } else {
            assert(lex(s, j, mid, vars) == lex(s, j + 1, lex_push(mid, c, false), vars));
        }
        assert(mid.cur.push(c) =~= st.cur + v);
    }
}

/// A character that stands for itself outside quotes and does not end a
/// token.
pub open spec fn plain_char(c: char) -> bool {
    &&& !spec_is_whitespace(c)
    &&& c != '\\'
    &&& c != '$'
    &&& c != '\''
    &&& c != '"'
    &&& c != '>'
    &&& c != '|'
    &&& c != '&'
}

/// A run of plain characters outside quotes is appended to the current
/// token, which it starts if it is not empty.
pub proof fn lemma_lex_plain_run(
    s: Seq<char>,
    i: int,
    st: LexState,
    t: Seq<char>,
    vars: Map<Seq<char>, Seq<char>>,
)
    requires
        st.mode == QuoteMode::Unquoted,
        0 <= i,
        i + t.len() <= s.len(),
        s.subrange(i, i + t.len()) == t,
        forall|k: int| 0 <= k < t.len() ==> plain_char(#[trigger] t[k]),
    ensures
        lex(s, i, st, vars) == lex(
            s,
            i + t.len(),
            LexState { cur: st.cur + t, in_token: st.in_token || t.len() > 0, ..st },
            vars,
        ),
    decreases t.len(),
{
    if t.len() == 0 {
        assert(st.cur + t =~= st.cur);
        assert(LexState { cur: st.cur + t, in_token: st.in_token || t.len() > 0, ..st } == st);
    } else {
        let u = t.drop_last();
        assert(s.subrange(i, i + u.len()) =~= u);
        assert forall|k: int| 0 <= k < u.len() implies plain_char(#[trigger] u[k]) by {
            assert(u[k] == t[k]);
        }
        lemma_lex_plain_run(s, i, st, u, vars);
        let j = i + u.len();
        let mid = LexState { cur: st.cur + u, in_token: st.in_token || u.len() > 0, ..st };
        assert(s[j] == t.last()) by {
            assert(s.subrange(i, i + t.len())[u.len() as int] == s[j]);
        }
        assert(plain_char(t[t.len() - 1]));
        assert(lex(s, j, mid, vars) == lex(s, j + 1, lex_push(mid, t.last(), true), vars));
        assert(mid.cur.push(t.last()) =~= st.cur + t);
    }
}

/// Text between single quotes is one token, taken literally: no character
/// of it is special, whatever the variables.
pub proof fn law_single_quoted_is_literal(t: Seq<char>, vars: Map<Seq<char>, Seq<char>>)
    requires
        forall|k: int| 0 <= k < t.len() ==> #[trigger] t[k] != '\'',
    ensures
        spec_tokenize(seq!['\''] + t + seq!['\''], vars) == Ok::<Seq<Seq<char>>, ParseError>(
            seq![t],
        ),
{
    let s = seq!['\''] + t + seq!['\''];
    let st1 = LexState { mode: QuoteMode::Single, in_token: true, bare: false, ..lex_start() };
    assert(lex(s, 0, lex_start(), vars) == lex(s, 1, st1, vars));
    assert(s.subrange(1, 1 + t.len() as int) =~= t);
    lemma_lex_single_run(s, 1, st1, t, vars);
    let st2 = LexState { cur: st1.cur + t, ..st1 };
    let j: int = 1 + t.len() as int;
    assert(s[j] == '\'');
    let st3 = LexState { mode: QuoteMode::Unquoted, ..st2 };
    assert(lex(s, j, st2, vars) == lex(s, j + 1, st3, vars));
    assert(lex(s, j + 1, st3, vars) == lex_finish(st3));
    assert(st1.cur + t =~= t);
    assert(st3.tokens.push(st3.cur) =~= seq![t]);
}

/// Text escaped for double quotes and put between double quotes reads back
/// as one token that is exactly the text, whatever the variables.
pub proof fn law_escaped_reads_back(v: Seq<char>, vars: Map<Seq<char>, Seq<char>>)
    ensures
        spec_tokenize(seq!['"'] + spec_escape(v) + seq!['"'], vars) == Ok::<
            Seq<Seq<char>>,
            ParseError,
        >(seq![v]),
{
    let e = spec_escape(v);
    let s = seq!['"'] + e + seq!['"'];
    let st1 = LexState { mode: QuoteMode::Double, in_token: true, bare: false, ..lex_start() };
    assert(lex(s, 0, lex_start(), vars) == lex(s, 1, st1, vars));
    assert(s.subrange(1, 1 + e.len() as int) =~= e);
    lemma_lex_dq_escaped(s, 1, st1, v, vars);
    let st2 = LexState { cur: st1.cur + v, ..st1 };
    let j: int = 1 + e.len() as int;
    assert(s[j] == '"');
    let st3 = LexState { mode: QuoteMode::Unquoted, ..st2 };
    assert(lex(s, j, st2, vars) == lex(s, j + 1, st3, vars));
    assert(lex(s, j + 1, st3, vars) == lex_finish(st3));
    assert(st1.cur + v =~= v);
    assert(st3.tokens.push(st3.cur) =~= seq![v]);
}

/// A run of whitespace outside quotes ends the current token, if any.
proof fn lemma_lex_space_run(
    s: Seq<char>,
    i: int,
    st: LexState,
    t: Seq<char>,
    vars: Map<Seq<char>, Seq<char>>,
)
    requires
        st.mode == QuoteMode::Unquoted,
        0 <= i,
        i + t.len() <= s.len(),
        s.subrange(i, i + t.len()) == t,
        t.len() > 0,
        forall|k: int| 0 <= k < t.len() ==> spec_is_whitespace(#[trigger] t[k]),
    ensures
        lex(s, i, st, vars) == lex(s, i + t.len(), lex_space(st), vars),
    decreases t.len(),
{
    let u = t.drop_last();
    let j = i + u.len();
    assert(s[j] == t.last()) by {
        assert(s.subrange(i, i + t.len())[u.len() as int] == s[j]);
    }
    assert(spec_is_whitespace(t[t.len() - 1]));
    if u.len() == 0 {
        assert(lex(s, i, st, vars) == lex(s, i + 1, lex_space(st), vars));
    } else {
        assert(s.subrange(i, i + u.len()) =~= u);
        assert forall|k: int| 0 <= k < u.len() implies spec_is_whitespace(#[trigger] u[k]) by {
            assert(u[k] == t[k]);
        }
        lemma_lex_space_run(s, i, st, u, vars);
        let mid = lex_space(st);
        assert(lex(s, j, mid, vars) == lex(s, j + 1, lex_space(mid), vars));
        assert(lex_space(mid) == mid);
    }
}

/// Words of plain characters separated by `sep` are read one by one.
proof fn lemma_lex_words(
    s: Seq<char>,
    i: int,
    st: LexState,
    ws: Seq<Seq<char>>,
    sep: Seq<char>,
    vars: Map<Seq<char>, Seq<char>>,
)
    requires
        st.mode == QuoteMode::Unquoted,
        !st.in_token,
        st.bare,
        st.cur.len() == 0,
        ws.len() > 0,
        forall|w: int| 0 <= w < ws.len() ==> (#[trigger] ws[w]).len() > 0,
        forall|w: int, k: int| 0 <= w < ws.len() && 0 <= k < ws[w].len() ==> plain_char(#[trigger] ws[w][k]),
        sep.len() > 0,
        forall|k: int| 0 <= k < sep.len() ==> spec_is_whitespace(#[trigger] sep[k]),
        0 <= i,
        i + join(ws, sep).len() <= s.len(),
        s.subrange(i, i + join(ws, sep).len()) == join(ws, sep),
    ensures
        lex(s, i, st, vars) == lex(
            s,
            i + join(ws, sep).len(),
            LexState {
                tokens: st.tokens + ws.drop_last(),
                cur: ws.last(),
                in_token: true,
                bare: true,
                mode: QuoteMode::Unquoted,
            },
            vars,
        ),
    decreases ws.len(),
{
    let last = ws.last();
    assert forall|k: int| 0 <= k < last.len() implies plain_char(#[trigger] last[k]) by {
        assert(plain_char(ws[ws.len() - 1][k]));
    }
    if ws.len() == 1 {
        assert(join(ws, sep) == ws[0]);
        lemma_lex_plain_run(s, i, st, last, vars);
        assert(st.cur + last =~= last);
        assert(st.tokens + ws.drop_last() =~= st.tokens);
    } else {
        let init = ws.drop_last();
        let ji = join(init, sep);
        assert(join(ws, sep) == ji + sep + last);
        assert(s.subrange(i, i + ji.len()) =~= ji) by {
            assert forall|k: int| 0 <= k < ji.len() implies s.subrange(i, i + ji.len())[k] == ji[k] by {
                assert(s.subrange(i, i + join(ws, sep).len())[k] == join(ws, sep)[k]);
            }
        }
        assert forall|w: int| 0 <= w < init.len() implies (#[trigger] init[w]).len() > 0 by {
            assert(init[w] == ws[w]);
        }
        assert forall|w: int, k: int| 0 <= w < init.len() && 0 <= k < init[w].len() implies plain_char(
            #[trigger] init[w][k],
        ) by {
            assert(init[w] == ws[w]);
        }
        lemma_lex_words(s, i, st, init, sep, vars);
        let st1 = LexState {
            tokens: st.tokens + init.drop_last(),
            cur: init.last(),
            in_token: true,
            bare: true,
            mode: QuoteMode::Unquoted,
        };
        let j = i + ji.len();
        assert(s.subrange(j, j + sep.len()) =~= sep) by {
            assert forall|k: int| 0 <= k < sep.len() implies s.subrange(j, j + sep.len())[k] == sep[k] by {
                assert(s.subrange(i, i + join(ws, sep).len())[ji.len() + k] == join(ws, sep)[ji.len()
                    + k]);
            }
        }
        lemma_lex_space_run(s, j, st1, sep, vars);
        let st2 = lex_space(st1);
        let j2 = j + sep.len();
        assert(s.subrange(j2, j2 + last.len()) =~= last) by {
            assert forall|k: int| 0 <= k < last.len() implies s.subrange(j2, j2 + last.len())[k] == last[k] by {
                assert(s.subrange(i, i + join(ws, sep).len())[ji.len() + sep.len() + k] == join(
                    ws,
                    sep,
                )[ji.len() + sep.len() + k]);
            }
        }
        lemma_lex_plain_run(s, j2, st2, last, vars);
        assert(st2.cur + last =~= last);
        assert(st2.tokens =~= st.tokens + ws.drop_last());
    }
}

/// Words of plain characters, separated by runs of whitespace, read back
/// as those words: whitespace only separates, and its amount does not
/// matter.
pub proof fn law_plain_words_read_back(
    ws: Seq<Seq<char>>,
    sep: Seq<char>,
    vars: Map<Seq<char>, Seq<char>>,
)
    requires
        forall|w: int| 0 <= w < ws.len() ==> (#[trigger] ws[w]).len() > 0,
        forall|w: int, k: int| 0 <= w < ws.len() && 0 <= k < ws[w].len() ==> plain_char(#[trigger] ws[w][k]),
        sep.len() > 0,
        forall|k: int| 0 <= k < sep.len() ==> spec_is_whitespace(#[trigger] sep[k]),
    ensures
        spec_tokenize(join(ws, sep), vars) == Ok::<Seq<Seq<char>>, ParseError>(ws),
{
    let s = join(ws, sep);
    if ws.len() == 0 {
        assert(lex(s, 0, lex_start(), vars) == lex_finish(lex_start()));
        assert(ws =~= Seq::<Seq<char>>::empty());
    } else {
        assert(s.subrange(0, s.len() as int) =~= s);
        lemma_lex_words(s, 0, lex_start(), ws, sep, vars);
        let fin = LexState {
            tokens: lex_start().tokens + ws.drop_last(),
            cur: ws.last(),
            in_token: true,
            bare: true,
            mode: QuoteMode::Unquoted,
        };
        assert(lex(s, s.len() as int, fin, vars) == lex_finish(fin));
        assert(fin.tokens =~= ws.drop_last());
        assert(fin.tokens.push(fin.cur) =~= ws);
        assert(lex_finish(fin) == Ok::<Seq<Seq<char>>, ParseError>(fin.tokens.push(fin.cur)));
    }
}

/// `$NAME` alone reads as one token holding the value of NAME (empty when
/// unset).
proof fn lemma_dollar_name(name: Seq<char>, vars: Map<Seq<char>, Seq<char>>)
    requires
        spec_is_valid_identifier(name),
    ensures
        spec_tokenize(seq!['$'] + name, vars) == Ok::<Seq<Seq<char>>, ParseError>(
            seq![var_value(vars, name)],
        ),
{
    let s = seq!['$'] + name;
    let v = var_value(vars, name);
    assert forall|k: int| 1 <= k < s.len() implies spec_is_name_cont(#[trigger] s[k]) by {
        assert(s[k] == name[k - 1]);
    }
    lemma_name_end_all(s, 1);
    assert(s.subrange(1, s.len() as int) =~= name);
    let st = lex_append(lex_unbare(lex_start()), v, true);
    assert(lex(s, 0, lex_start(), vars) == lex(s, s.len() as int, st, vars));
    assert(lex(s, s.len() as int, st, vars) == lex_finish(st));
    assert(st.tokens.push(st.cur) =~= seq![v]);
}

/// `${NAME}` alone reads as one token holding the value of NAME (empty
/// when unset).
proof fn lemma_braced_name(name: Seq<char>, vars: Map<Seq<char>, Seq<char>>)
    requires
        spec_is_valid_identifier(name),
    ensures
        spec_tokenize(seq!['$', '{'] + name + seq!['}'], vars) == Ok::<Seq<Seq<char>>, ParseError>(
            seq![var_value(vars, name)],
        ),
{
    let s = seq!['$', '{'] + name + seq!['}'];
    let v = var_value(vars, name);
    let close = 2 + name.len() as int;
    lemma_brace_close(s, 2);
    assert(s[close] == '}');
    assert forall|k: int| 2 <= k < close implies #[trigger] s[k] != '}' by {
        assert(s[k] == name[k - 2]);
        if k > 2 {
            assert(spec_is_name_cont(name[k - 2]));
        }
    }
    assert(brace_close(s, 2) == close) by {
        if brace_close(s, 2) < close {
            assert(s[brace_close(s, 2)] != '}');
        }
    }
    assert(s.subrange(2, close) =~= name);
    let st = lex_append(lex_unbare(lex_start()), v, true);
    assert(lex(s, 0, lex_start(), vars) == lex(s, close + 1, st, vars));
    assert(lex(s, close + 1, st, vars) == lex_finish(st));
    assert(st.tokens.push(st.cur) =~= seq![v]);
}

/// `$NAME` and `${NAME}` each read as one token holding the value of the
/// variable, or an empty token when it is unset.
pub proof fn law_variable_expands(name: Seq<char>, vars: Map<Seq<char>, Seq<char>>)
    requires
        spec_is_valid_identifier(name),
    ensures
        spec_tokenize(seq!['$'] + name, vars) == Ok::<Seq<Seq<char>>, ParseError>(
            seq![var_value(vars, name)],
        ),
        spec_tokenize(seq!['$', '{'] + name + seq!['}'], vars) == Ok::<Seq<Seq<char>>, ParseError>(
            seq![var_value(vars, name)],
        ),
{
    lemma_dollar_name(name, vars);
    lemma_braced_name(name, vars);
}

/// Whether `t`, read inside double quotes, stands for itself: it holds no
/// `"` and no `\`, and no `$` in it is followed by a character that can start a name
/// or by `{`.
pub open spec fn dq_literal(t: Seq<char>) -> bool {
    forall|k: int|
        0 <= k < t.len() ==> #[trigger] t[k] != '"' && t[k] != '\\' && (t[k] == '$' && k + 1
            < t.len() ==> !spec_is_name_start(t[k + 1]) && t[k + 1] != '{')
}

/// Text that stands for itself inside double quotes is appended as it is.
proof fn lemma_lex_dq_literal_run(
    s: Seq<char>,
    i: int,
    st: LexState,
    t: Seq<char>,
    vars: Map<Seq<char>, Seq<char>>,
)
    requires
        st.mode == QuoteMode::Double,
        0 <= i,
        i + t.len() < s.len(),
        s.subrange(i, i + t.len()) == t,
        dq_literal(t),
        t.len() > 0 && t.last() == '$' ==> !spec_is_name_start(s[i + t.len()]) && s[i + t.len()]
            != '{',
    ensures
        lex(s, i, st, vars) == lex(s, i + t.len(), LexState { cur: st.cur + t, ..st }, vars),
    decreases t.len(),
{
    if t.len() == 0 {
        assert(st.cur + t =~= st.cur);
        assert(LexState { cur: st.cur + t, ..st } == st);
    } else {
        let u = t.drop_last();
        let c = t.last();
        assert(s.subrange(i, i + u.len()) =~= u);
        assert(dq_literal(u)) by {
            assert forall|k: int| 0 <= k < u.len() implies #[trigger] u[k] != '"' && u[k] != '\\' && (
            u[k] == '$' && k + 1 < u.len() ==> !spec_is_name_start(u[k + 1]) && u[k + 1] != '{') by {
                assert(u[k] == t[k]);
                assert(t[k] != '"');
                if k + 1 < u.len() {
                    assert(u[k + 1] == t[k + 1]);
                }
            }
        }
        let j = i + u.len();
        assert(s[j] == c) by {
            assert(s.subrange(i, i + t.len())[u.len() as int] == s[j]);
        }
        if u.len() > 0 && u.last() == '$' {
            assert(t[u.len() - 1] == '$');
            assert(t[u.len() - 1] != '"');
        }
        lemma_lex_dq_literal_run(s, i, st, u, vars);
        let mid = LexState { cur: st.cur + u, ..st };
        assert(t[t.len() - 1] != '"');
        assert(lex(s, j, mid, vars) == lex(s, j + 1, lex_push(mid, c, false), vars));
        assert(mid.cur.push(c) =~= st.cur + t);
    }
}

/// Text between double quotes that holds no `"` or `\`, and no `$` that
/// starts `$NAME` or `${`, is one token holding exactly that text: a `$`
/// not followed by a name or `{` stays, whatever the variables.
pub proof fn law_double_quoted_text_is_literal(t: Seq<char>, vars: Map<Seq<char>, Seq<char>>)
    requires
        dq_literal(t),
    ensures
        spec_tokenize(seq!['"'] + t + seq!['"'], vars) == Ok::<Seq<Seq<char>>, ParseError>(seq![t]),
{
    let s = seq!['"'] + t + seq!['"'];
    let st1 = LexState { mode: QuoteMode::Double, in_token: true, bare: false, ..lex_start() };
    assert(lex(s, 0, lex_start(), vars) == lex(s, 1, st1, vars));
    assert(s.subrange(1, 1 + t.len() as int) =~= t);
    let j: int = 1 + t.len() as int;
    assert(s[j] == '"');
    if t.len() > 0 && t.last() == '$' {
        assert(!spec_is_name_start(s[j]));
    }
    lemma_lex_dq_literal_run(s, 1, st1, t, vars);
    let st2 = LexState { cur: st1.cur + t, ..st1 };
    let st3 = LexState { mode: QuoteMode::Unquoted, ..st2 };
    assert(lex(s, j, st2, vars) == lex(s, j + 1, st3, vars));
    assert(lex(s, j + 1, st3, vars) == lex_finish(st3));
    assert(st1.cur + t =~= t);
    assert(st3.tokens.push(st3.cur) =~= seq![t]);
}

/// Ends the current token: moves it to `tokens` and empties it.
fn flush_token(tokens: &mut Vec<String>, cur: &mut Vec<char>)
    ensures
        final(tokens).deep_view() == old(tokens).deep_view().push(old(cur)@),
        final(cur)@ == Seq::<char>::empty(),
{
    let t = string_from_chars(cur);
    let ghost before = tokens.deep_view();
    tokens.push(t);
    assert(tokens.deep_view() =~= before.push(old(cur)@));
    cur.clear();
}

/// Adds an operator token made of `fd` (if any) followed by `>` or `>>`.
fn push_gt_op(tokens: &mut Vec<String>, fd: Option<char>, append: bool)
    ensures
        final(tokens).deep_view() == old(tokens).deep_view().push(
            match fd {
                Some(d) => seq![d] + gt_op(append),
                None => gt_op(append),
            },
        ),
{
    let mut t = String::new();
    match fd {
        Some(d) => push_char(&mut t, d),
        None => {},
    }
    push_char(&mut t, '>');
    if append {
        push_char(&mut t, '>');
    }
    assert(t@ =~= match fd {
        Some(d) => seq![d] + gt_op(append),
        None => gt_op(append),
    });
    let ghost before = tokens.deep_view();
    tokens.push(t);
    assert(tokens.deep_view() =~= before.push(
        match fd {
            Some(d) => seq![d] + gt_op(append),
            None => gt_op(append),
        },
    ));
}

/// Adds the one-character token `c`.
fn push_char_token(tokens: &mut Vec<String>, c: char)
    ensures
        final(tokens).deep_view() == old(tokens).deep_view().push(seq![c]),
{
    let mut t = String::new();
    push_char(&mut t, c);
    let ghost before = tokens.deep_view();
    tokens.push(t);
    assert(tokens.deep_view() =~= before.push(seq![c]));
}

/// Appends the value of the variable `name` (nothing when it is unset).
fn append_value(name: &Vec<char>, vars: &StringMap, cur: &mut Vec<char>)
    ensures
        final(cur)@ == old(cur)@ + var_value(vars@, name@),
{
    let key = string_from_chars(name);
    match vars.get(key.as_str()) {
        Some(value) => {
            let vc = chars_of(value.as_str());
            let mut i: usize = 0;
            while i < vc.len()
                invariant
                    i <= vc@.len(),
                    cur@ == old(cur)@ + vc@.subrange(0, i as int),
                decreases vc@.len() - i,
            {
                cur.push(vc[i]);
                i = i + 1;
                assert(cur@ =~= old(cur)@ + vc@.subrange(0, i as int));
            }
            assert(vc@.subrange(0, vc@.len() as int) == vc@);
        },
        None => {
            assert(old(cur)@ + Seq::<char>::empty() =~= old(cur)@);
        },
    }
}

/// Reads the variable name that starts at `start` and appends its value.
fn expand_var(chars: &Vec<char>, start: usize, vars: &StringMap, cur: &mut Vec<char>) -> (end: usize)
    requires
        start < chars@.len(),
        spec_is_name_start(chars@[start as int]),
    ensures
        end == name_end(chars@, start as int),
        start < end <= chars@.len(),
        final(cur)@ == old(cur)@ + var_value(vars@, chars@.subrange(start as int, end as int)),
{
    proof {
        lemma_name_end(chars@, start as int);
    }
    let mut j = start;
    let mut name: Vec<char> = Vec::new();
    while j < chars.len() && is_name_cont(chars[j])
        invariant
            start <= j <= chars@.len(),
            name_end(chars@, j as int) == name_end(chars@, start as int),
            name@ == chars@.subrange(start as int, j as int),
        decreases chars@.len() - j,
    {
        name.push(chars[j]);
        j = j + 1;
        assert(name@ =~= chars@.subrange(start as int, j as int));
    }
    append_value(&name, vars, cur);
    j
}

/// Reads `${NAME}` whose name starts at `start` (just after the `{`) and
/// appends the value; returns the position after the closing `}`.
fn expand_braced(chars: &Vec<char>, start: usize, vars: &StringMap, cur: &mut Vec<char>) -> (r:
    Result<usize, ParseError>)
    requires
        start <= chars@.len(),
    ensures
        start <= brace_close(chars@, start as int) <= chars@.len(),
        ({
            let k = brace_close(chars@, start as int);
            if k >= chars@.len() {
                r == Err::<usize, ParseError>(ParseError::UnterminatedBraceExpansion)
            } else if !spec_is_valid_identifier(chars@.subrange(start as int, k)) {
                r == Err::<usize, ParseError>(ParseError::BadSubstitution)
            } else {
                &&& r == Ok::<usize, ParseError>((k + 1) as usize)
                &&& final(cur)@ == old(cur)@ + var_value(vars@, chars@.subrange(start as int, k))
            }
        }),
{
    proof {
        lemma_brace_close(chars@, start as int);
    }
    let mut j = start;
    let mut name: Vec<char> = Vec::new();
    while j < chars.len() && chars[j] != '}'
        invariant
            start <= j <= chars@.len(),
            brace_close(chars@, j as int) == brace_close(chars@, start as int),
            name@ == chars@.subrange(start as int, j as int),
        decreases chars@.len() - j,
    {
        name.push(chars[j]);
        j = j + 1;
        assert(name@ =~= chars@.subrange(start as int, j as int));
    }
    if j >= chars.len() {
        return Err(ParseError::UnterminatedBraceExpansion);
    }
    let key = string_from_chars(&name);
    if !is_valid_identifier(key.as_str()) {
        return Err(ParseError::BadSubstitution);
    }
    append_value(&name, vars, cur);
    Ok(j + 1)
}

/// Splits one command line into tokens.
///
/// Outside quotes, whitespace separates tokens and `\` takes the next
/// character literally; inside `'...'` every character is literal; inside
/// `"..."` a backslash escapes only `"`, `\`, `$` and `` ` ``.  `$NAME`
/// and `${NAME}` (outside quotes or inside double quotes) are replaced by
/// the value of the variable, or by nothing when it is unset; a `${` whose
/// `}` never comes is `UnterminatedBraceExpansion`, and one whose text up to
/// the `}` is not a name is `BadSubstitution`.  `>`, `>>`, `|` and `&`
/// outside quotes are tokens of their own; a `>` or `>>` right after a word
/// that is a bare `1` or `2` (typed without quote, escape or expansion)
/// joins it as `1>`, `2>>`, ....  Adjacent quoted and unquoted pieces join
/// into a single token.
pub fn tokenize(input: &str, vars: &StringMap) -> (r: Result<Vec<String>, ParseError>)
    ensures
        match spec_tokenize(input@, vars@) {
            Ok(ts) => r matches Ok(v) && v.deep_view() == ts,
            Err(e) => r == Err::<Vec<String>, ParseError>(e),
        },
{
    let chars = chars_of(input);
    let ghost s = input@;
    let n = chars.len();
    let mut tokens: Vec<String> = Vec::new();
    let mut cur: Vec<char> = Vec::new();
    let mut in_token = false;
    let mut bare = true;
    let mut mode = QuoteMode::Unquoted;
    let mut i: usize = 0;
    assert(tokens.deep_view() =~= Seq::<Seq<char>>::empty());
    while i < n
        invariant
            chars@ == s,
            s == input@,
            n == s.len(),
            i <= n + 1,
            spec_tokenize(s, vars@) == lex(
                s,
                i as int,
                LexState { tokens: tokens.deep_view(), cur: cur@, in_token, bare, mode },
                vars@,
            ),
        decreases n + 1 - i,
    {
        let c = chars[i];
        let ghost st = LexState { tokens: tokens.deep_view(), cur: cur@, in_token, bare, mode };
        match mode {
            QuoteMode::Unquoted => {
                if c == '\\' {
                    if i + 1 < n {
                        cur.push(chars[i + 1]);
                        in_token = true;
                        bare = false;
                        i = i + 2;
                    } else {
                        assert(lex(s, i as int, st, vars@) == Err::<Seq<Seq<char>>, ParseError>(
                            ParseError::TrailingBackslash,
                        ));
                        return Err(ParseError::TrailingBackslash);
                    }
                } else if c == '$' {
                    if i + 1 < n && chars[i + 1] == '{' {
                        match expand_braced(&chars, i + 2, vars, &mut cur) {
                            Ok(next) => {
                                i = next;
                                in_token = true;
                                bare = false;
                            },
                            Err(e) => {
                                return Err(e);
                            },
                        }
                    } else if i + 1 < n && is_name_start(chars[i + 1]) {
                        i = expand_var(&chars, i + 1, vars, &mut cur);
                        in_token = true;
                        bare = false;
                    } else {
                        cur.push('$');
                        in_token = true;
                        bare = false;
                        i = i + 1;
                    }
                } else if c == '\'' {
                    mode = QuoteMode::Single;
                    in_token = true;
                    bare = false;
                    i = i + 1;
                } else if c == '"' {
                    mode = QuoteMode::Double;
                    in_token = true;
                    bare = false;
                    i = i + 1;
                } else if c == '>' {
                    let append = i + 1 < n && chars[i + 1] == '>';
                    if in_token && bare && cur.len() == 1 && cur[0] == '1' {
                        assert(cur@ =~= seq!['1']);
                        cur.clear();
                        push_gt_op(&mut tokens, Some('1'), append);
                    } else if in_token && bare && cur.len() == 1 && cur[0] == '2' {
                        assert(cur@ =~= seq!['2']);
                        cur.clear();
                        push_gt_op(&mut tokens, Some('2'), append);
                    } else if in_token {
                        flush_token(&mut tokens, &mut cur);
                        push_gt_op(&mut tokens, None, append);
                    } else {
                        push_gt_op(&mut tokens, None, append);
                    }
                    in_token = false;
                    bare = true;
                    i = if append { i + 2 } else { i + 1 };
                } else if c == '|' || c == '&' {
                    if in_token {
                        flush_token(&mut tokens, &mut cur);
                    }
                    push_char_token(&mut tokens, c);
                    in_token = false;
                    bare = true;
                    i = i + 1;
                } else if is_whitespace(c) {
                    if in_token {
                        flush_token(&mut tokens, &mut cur);
                        in_token = false;
                        bare = true;
                    }
                    i = i + 1;
                } else {
                    cur.push(c);
                    in_token = true;
                    i = i + 1;
                }
            },
            QuoteMode::Single => {
                if c == '\'' {
                    mode = QuoteMode::Unquoted;
                } else {
                    cur.push(c);
                }
                i = i + 1;
            },
            QuoteMode::Double => {
                if c == '"' {
                    mode = QuoteMode::Unquoted;
                    i = i + 1;
                } else if c == '\\' {
                    if i + 1 < n && (chars[i + 1] == '"' || chars[i + 1] == '\\' || chars[i + 1]
                        == '$' || chars[i + 1] == '`') {
                        cur.push(chars[i + 1]);
                        i = i + 2;
                    } else {
                        cur.push('\\');
                        i = i + 1;
                    }
                } else if c == '$' {
                    if i + 1 < n && chars[i + 1] == '{' {
                        match expand_braced(&chars, i + 2, vars, &mut cur) {
                            Ok(next) => {
                                i = next;
                            },
                            Err(e) => {
                                return Err(e);
                            },
                        }
                    } else if i + 1 < n && is_name_start(chars[i + 1]) {
                        i = expand_var(&chars, i + 1, vars, &mut cur);
                    } else {
                        cur.push('$');
                        i = i + 1;
                    }
                } else {
                    cur.push(c);
                    i = i + 1;
                }
            },
        }
    }
    match mode {
        QuoteMode::Single => Err(ParseError::UnterminatedSingleQuote),
        QuoteMode::Double => Err(ParseError::UnterminatedDoubleQuote),
        QuoteMode::Unquoted => {
            if in_token {
                flush_token(&mut tokens, &mut cur);
            }
            Ok(tokens)
        },
    }
}

} // verus!
