//! `declare`: shell variables, their names and their printing.

use vstd::prelude::*;

use crate::parser::tokenize::{
    law_variable_expands, lemma_lex_dq_escaped, lemma_lex_plain_run, lex, lex_finish, lex_space,
    lex_start, plain_char, spec_tokenize, var_value, LexState, QuoteMode,
};
use crate::parser::ParseError;
use crate::strmap::StringMap;
use crate::text::{
    chars_of, is_name_cont, is_name_start, push_char, spec_is_name_cont, spec_is_name_start,
    spec_is_whitespace, str_eq, string_from_chars, words,
};

verus! {

/// Whether a backslash goes before `c` inside double quotes: `\`, `"`, `$`
/// and `` ` ``.
pub open spec fn needs_escape(c: char) -> bool {
    c == '\\' || c == '"' || c == '$' || c == '`'
}

/// `s` with a backslash before each character that double quotes would
/// otherwise interpret.
pub open spec fn spec_escape(s: Seq<char>) -> Seq<char>
    decreases s.len(),
{
    if s.len() == 0 {
        seq![]
    } else {
        spec_escape(s.drop_last()) + if needs_escape(s.last()) {
            seq!['\\', s.last()]
        } else {
            seq![s.last()]
        }
    }
}

/// A valid variable name: `[A-Za-z_][A-Za-z0-9_]*`.
pub open spec fn spec_is_valid_identifier(s: Seq<char>) -> bool {
    &&& s.len() > 0
    &&& spec_is_name_start(s[0])
    &&& forall|i: int| 1 <= i < s.len() ==> spec_is_name_cont(#[trigger] s[i])
}

/// The position of the first `=` in `s`, if any.
pub open spec fn first_eq(s: Seq<char>) -> Option<int> {
    if exists|k: int| 0 <= k < s.len() && s[k] == '=' {
        Some(choose|k: int| 0 <= k < s.len() && s[k] == '=' && forall|j: int| 0 <= j < k ==> s[j] != '=')
    } else {
        None
    }
}

/// `NAME=VALUE` split at its first `=`; without `=`, the value is empty.
pub open spec fn split_assignment(s: Seq<char>) -> (Seq<char>, Seq<char>) {
    match first_eq(s) {
        Some(k) => (s.take(k), s.skip(k + 1)),
        None => (s, seq![]),
    }
}

/// The error for an invalid name; `shown` is the argument as written.
pub open spec fn invalid_identifier_line(shown: Seq<char>) -> Seq<char> {
    "declare: `"@ + shown + "': not a valid identifier"@ + seq!['\n']
}

/// The line `declare -p` prints for a set variable.
pub open spec fn declare_print_line(name: Seq<char>, value: Seq<char>) -> Seq<char> {
    "declare -- "@ + name + seq!['=', '"'] + spec_escape(value) + seq!['"', '\n']
}

/// The error `declare -p` prints for an unset variable.
pub open spec fn not_found_line(name: Seq<char>) -> Seq<char> {
    "declare: "@ + name + ": not found"@ + seq!['\n']
}

/// What `declare args` does to the variables `vars`: the text for standard
/// output, the text for standard error and the variables afterwards.
pub open spec fn spec_declare(args: Seq<Seq<char>>, vars: Map<Seq<char>, Seq<char>>) -> (
    Seq<char>,
    Seq<char>,
    Map<Seq<char>, Seq<char>>,
) {
    if args.len() == 0 {
        (seq![], seq![], vars)
    } else if args[0] == "-p"@ {
        if args.len() >= 2 {
            let name = args[1];
            if !spec_is_valid_identifier(name) {
                (seq![], invalid_identifier_line(name), vars)
            } else if vars.dom().contains(name) {
                (declare_print_line(name, vars[name]), seq![], vars)
            } else {
                (seq![], not_found_line(name), vars)
            }
        } else {
            (seq![], seq![], vars)
        }
    } else if args[0].len() > 0 && args[0][0] == '-' {
        (seq![], seq![], vars)
    } else {
        let (name, value) = split_assignment(args[0]);
        if !spec_is_valid_identifier(name) {
            (seq![], invalid_identifier_line(args[0]), vars)
        } else {
            (seq![], seq![], vars.insert(name, value))
        }
    }
}

/// `s` with `\`, `"`, `$` and `` ` `` escaped by a backslash, so that the
/// result between double quotes reads back as `s`.
pub fn escape_for_double_quote(s: &str) -> (r: String)
    ensures
        r@ == spec_escape(s@),
{
    let cs = chars_of(s);
    let mut out = String::new();
    let mut i: usize = 0;
    while i < cs.len()
        invariant
            i <= cs@.len(),
            cs@ == s@,
            out@ == spec_escape(s@.take(i as int)),
        decreases cs@.len() - i,
    {
        let ch = cs[i];
        assert(s@.take(i + 1).drop_last() =~= s@.take(i as int));
        if ch == '\\' || ch == '"' || ch == '$' || ch == '`' {
            push_char(&mut out, '\\');
            push_char(&mut out, ch);
        } else {
            push_char(&mut out, ch);
        }
        i = i + 1;
        assert(out@ =~= spec_escape(s@.take(i as int)));
    }
    assert(s@.take(cs@.len() as int) =~= s@);
    out
}

/// Whether `name` is a valid variable name: `[A-Za-z_][A-Za-z0-9_]*`.
pub fn is_valid_identifier(name: &str) -> (b: bool)
    ensures
        b == spec_is_valid_identifier(name@),
{
    let cs = chars_of(name);
    if cs.len() == 0 {
        return false;
    }
    if !is_name_start(cs[0]) {
        return false;
    }
    let mut i: usize = 1;
    while i < cs.len()
        invariant
            1 <= i <= cs@.len(),
            cs@ == name@,
            forall|j: int| 1 <= j < i ==> spec_is_name_cont(#[trigger] name@[j]),
        decreases cs@.len() - i,
    {
        if !is_name_cont(cs[i]) {
            return false;
        }
        i = i + 1;
    }
    true
}

/// Splits `NAME=VALUE` at its first `=`.
fn split_at_eq(s: &str) -> (r: (String, String))
    ensures
        r.0@ == split_assignment(s@).0,
        r.1@ == split_assignment(s@).1,
{
    let cs = chars_of(s);
    let mut k: usize = 0;
    while k < cs.len() && cs[k] != '='
        invariant
            k <= cs@.len(),
            cs@ == s@,
            forall|j: int| 0 <= j < k ==> s@[j] != '=',
        decreases cs@.len() - k,
    {
        k = k + 1;
    }
    let mut name: Vec<char> = Vec::new();
    let mut i: usize = 0;
    while i < k
        invariant
            i <= k <= cs@.len(),
            cs@ == s@,
            name@ == s@.take(i as int),
        decreases k - i,
    {
        name.push(cs[i]);
        i = i + 1;
        assert(name@ =~= s@.take(i as int));
    }
    let mut value: Vec<char> = Vec::new();
    if k < cs.len() {
        let mut j: usize = k + 1;
        while j < cs.len()
            invariant
                k + 1 <= j <= cs@.len(),
                cs@ == s@,
                value@ == s@.subrange(k + 1, j as int),
            decreases cs@.len() - j,
        {
            value.push(cs[j]);
            j = j + 1;
            assert(value@ =~= s@.subrange(k + 1, j as int));
        }
        proof {
            assert(s@[k as int] == '=');
            let kk = choose|kk: int| 0 <= kk < s@.len() && s@[kk] == '=' && forall|j: int| 0 <= j < kk ==> s@[j] != '=';
            assert(kk == k);
            assert(s@.skip(k + 1) =~= s@.subrange(k + 1, s@.len() as int));
        }
    } else {
        assert(name@ =~= s@);
        assert(value@ =~= Seq::<char>::empty());
    }
    (string_from_chars(&name), string_from_chars(&value))
}

/// `declare`: `NAME=VALUE` sets a variable, `NAME` sets it to the empty
/// string, `-p NAME` prints it as `declare -- NAME="VALUE"` with `\`, `"`,
/// `$` and `` ` `` escaped.  An invalid name is reported on standard error;
/// other flags and a missing operand do nothing.
pub fn run_declare(sink: &mut String, err_sink: &mut String, args: &[String], vars: &mut StringMap)
    ensures
        ({
            let (out, err, vs) = spec_declare(words(args@), old(vars)@);
            &&& final(sink)@ == old(sink)@ + out
            &&& final(err_sink)@ == old(err_sink)@ + err
            &&& final(vars)@ == vs
        }),
{
    let ghost a = words(args@);
    assert(old(sink)@ + Seq::<char>::empty() =~= old(sink)@);
    assert(old(err_sink)@ + Seq::<char>::empty() =~= old(err_sink)@);
    if args.len() == 0 {
        return ;
    }
    assert(a[0] == args@[0]@);
    let first = &args[0];
    if str_eq(first, "-p") {
        if args.len() >= 2 {
            assert(a[1] == args@[1]@);
            let name = &args[1];
            if !is_valid_identifier(name.as_str()) {
                err_sink.append("declare: `");
                err_sink.append(name.as_str());
                err_sink.append("': not a valid identifier");
                push_char(err_sink, '\n');
                assert(final(err_sink)@ =~= old(err_sink)@ + invalid_identifier_line(a[1]));
                return ;
            }
            match vars.get(name.as_str()) {
                Some(value) => {
                    let escaped = escape_for_double_quote(value.as_str());
                    sink.append("declare -- ");
                    sink.append(name.as_str());
                    push_char(sink, '=');
                    push_char(sink, '"');
                    sink.append(escaped.as_str());
                    push_char(sink, '"');
                    push_char(sink, '\n');
                    assert(final(sink)@ =~= old(sink)@ + declare_print_line(a[1], old(vars)@[a[1]]));
                },
                None => {
                    err_sink.append("declare: ");
                    err_sink.append(name.as_str());
                    err_sink.append(": not found");
                    push_char(err_sink, '\n');
                    assert(final(err_sink)@ =~= old(err_sink)@ + not_found_line(a[1]));
                },
            }
        }
        return ;
    }
    let fc = chars_of(first.as_str());
    if fc.len() > 0 && fc[0] == '-' {
        return ;
    }
    let (name, value) = split_at_eq(first.as_str());
    if !is_valid_identifier(name.as_str()) {
        err_sink.append("declare: `");
        err_sink.append(first.as_str());
        err_sink.append("': not a valid identifier");
        push_char(err_sink, '\n');
        assert(final(err_sink)@ =~= old(err_sink)@ + invalid_identifier_line(a[0]));
        return ;
    }
    vars.insert(name, value);
}


/// `NAME=VALUE` splits into `NAME` and `VALUE` when `NAME` is a valid name.
proof fn lemma_split_assignment(name: Seq<char>, value: Seq<char>)
    requires
        spec_is_valid_identifier(name),
    ensures
        split_assignment(name + seq!['='] + value) == (name, value),
{
    let s = name + seq!['='] + value;
    let n = name.len() as int;
    assert(s[n] == '=');
    assert forall|j: int| 0 <= j < n implies s[j] != '=' by {
        assert(s[j] == name[j]);
        if j > 0 {
            assert(spec_is_name_cont(name[j]));
        }
    }
    let k = choose|k: int| 0 <= k < s.len() && s[k] == '=' && forall|j: int| 0 <= j < k ==> s[j] != '=';
    assert(k == n) by {
        if k < n {
            assert(s[k] == name[k]);
            if k > 0 {
                assert(spec_is_name_cont(name[k]));
            }
        }
    }
    assert(s.take(n) =~= name);
    assert(s.skip(n + 1) =~= value);
}

/// Setting `NAME=VALUE` and then asking `declare -p NAME` prints the
/// declaration of that value; nothing goes to standard error, and the
/// variables are those of the first call.
pub proof fn law_declare_then_print(
    name: Seq<char>,
    value: Seq<char>,
    vars: Map<Seq<char>, Seq<char>>,
)
    requires
        spec_is_valid_identifier(name),
    ensures
        ({
            let (out1, err1, vs) = spec_declare(seq![name + seq!['='] + value], vars);
            &&& out1.len() == 0
            &&& err1.len() == 0
            &&& vs == vars.insert(name, value)
            &&& spec_declare(seq!["-p"@, name], vs) == (declare_print_line(name, value), Seq::<
                char,
            >::empty(), vs)
        }),
{
    reveal_strlit("-p");
    let arg = name + seq!['='] + value;
    lemma_split_assignment(name, value);
    assert(arg[0] == name[0]);
    assert(arg != "-p"@) by {
        assert(arg[0] != '-');
    }
    assert(seq!["-p"@, name][0] == "-p"@);
}

/// What `declare -p` prints for a variable reads back, through the
/// tokenizer, as the words `declare`, `--` and `NAME=VALUE`: the value
/// comes back exactly, whatever it holds and whatever the variables.
pub proof fn law_declare_print_reads_back(
    name: Seq<char>,
    value: Seq<char>,
    vars: Map<Seq<char>, Seq<char>>,
)
    requires
        spec_is_valid_identifier(name),
    ensures
        spec_tokenize(declare_print_line(name, value), vars) == Ok::<Seq<Seq<char>>, ParseError>(
            seq!["declare"@, "--"@, name + seq!['='] + value],
        ),
{
    reveal_strlit("declare -- ");
    reveal_strlit("declare");
    reveal_strlit("--");
    let e = spec_escape(value);
    let s = declare_print_line(name, value);
    let t1 = "declare"@;
    let t2 = "--"@;
    let t3 = name.push('=');
    let nl = name.len() as int;
    let el = e.len() as int;
    assert(s =~= t1 + seq![' '] + t2 + seq![' '] + t3 + seq!['"'] + e + seq!['"', '\n']);
    // "declare"
    assert(s.subrange(0, 7) =~= t1);
    assert forall|k: int| 0 <= k < t1.len() implies plain_char(#[trigger] t1[k]) by {}
    lemma_lex_plain_run(s, 0, lex_start(), t1, vars);
    let st1 = LexState { cur: t1, in_token: true, ..lex_start() };
    assert(lex_start().cur + t1 =~= t1);
    assert(spec_is_whitespace(s[7]));
    let st2 = lex_space(st1);
    assert(lex(s, 7, st1, vars) == lex(s, 8, st2, vars));
    // "--"
    assert(s.subrange(8, 10) =~= t2);
    assert forall|k: int| 0 <= k < t2.len() implies plain_char(#[trigger] t2[k]) by {}
    lemma_lex_plain_run(s, 8, st2, t2, vars);
    let st3 = LexState { cur: st2.cur + t2, in_token: true, ..st2 };
    assert(spec_is_whitespace(s[10]));
    let st4 = lex_space(st3);
    assert(lex(s, 10, st3, vars) == lex(s, 11, st4, vars));
    // "NAME="
    assert(s.subrange(11, 11 + nl + 1) =~= t3);
    assert forall|k: int| 0 <= k < t3.len() implies plain_char(#[trigger] t3[k]) by {
        if k < nl {
            assert(t3[k] == name[k]);
            if k > 0 {
                assert(spec_is_name_cont(name[k]));
            }
        }
    }
    lemma_lex_plain_run(s, 11, st4, t3, vars);
    let st5 = LexState { cur: st4.cur + t3, in_token: true, ..st4 };
    // the opening quote
    let q1 = 12 + nl;
    assert(s[q1] == '"');
    let st6 = LexState { mode: QuoteMode::Double, in_token: true, bare: false, ..st5 };
    assert(lex(s, q1, st5, vars) == lex(s, q1 + 1, st6, vars));
    // the escaped value
    assert(s.subrange(q1 + 1, q1 + 1 + el) =~= e);
    lemma_lex_dq_escaped(s, q1 + 1, st6, value, vars);
    let st7 = LexState { cur: st6.cur + value, ..st6 };
    // the closing quote and the newline
    let q2 = q1 + 1 + el;
    assert(s[q2] == '"');
    let st8 = LexState { mode: QuoteMode::Unquoted, ..st7 };
    assert(lex(s, q2, st7, vars) == lex(s, q2 + 1, st8, vars));
    assert(spec_is_whitespace(s[q2 + 1]));
    let st9 = lex_space(st8);
    assert(lex(s, q2 + 1, st8, vars) == lex(s, q2 + 2, st9, vars));
    assert(q2 + 2 == s.len());
    assert(lex(s, q2 + 2, st9, vars) == lex_finish(st9));
    assert(st2.cur + t2 =~= t2);
    assert(st4.cur + t3 =~= t3);
    assert(st7.cur =~= name + seq!['='] + value);
    assert(st9.tokens =~= seq!["declare"@, "--"@, name + seq!['='] + value]);
}


/// After `declare NAME=VALUE`, `$NAME` and `${NAME}` read back as one
/// token holding VALUE.
pub proof fn law_declared_variable_expands(
    name: Seq<char>,
    value: Seq<char>,
    vars: Map<Seq<char>, Seq<char>>,
)
    requires
        spec_is_valid_identifier(name),
    ensures
        ({
            let vs = spec_declare(seq![name + seq!['='] + value], vars).2;
            &&& spec_tokenize(seq!['$'] + name, vs) == Ok::<Seq<Seq<char>>, ParseError>(seq![value])
            &&& spec_tokenize(seq!['$', '{'] + name + seq!['}'], vs) == Ok::<
                Seq<Seq<char>>,
                ParseError,
            >(seq![value])
        }),
{
    reveal_strlit("-p");
    let arg = name + seq!['='] + value;
    lemma_split_assignment(name, value);
    assert(arg[0] == name[0]);
    assert(arg != "-p"@) by {
        assert(arg[0] != '-');
    }
    let vs = vars.insert(name, value);
    assert(spec_declare(seq![arg], vars).2 == vs);
    assert(var_value(vs, name) == value);
    law_variable_expands(name, vs);
}

} // verus!
