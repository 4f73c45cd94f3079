//! Completion through registered scripts: what the script is told and how
//! its output is read.

use vstd::prelude::*;

use super::helpers::utf8_len_of;
use crate::parser::tokenize::{spec_tokenize, tokenize};
use crate::strmap::StringMap;
use crate::text::{
    byte_len, chars_of, is_ascii_whitespace, is_whitespace, spec_is_ascii_whitespace,
    lemma_utf8_len_first, spec_is_whitespace, string_from_chars, utf8_len,
};

verus! {

/// What a completion script is told: the command, the word being
/// completed, the word before it, and the byte length of the text that a
/// candidate replaces.
#[derive(Debug)]
pub struct CompleterContext {
    pub cmd: String,
    pub current_word: String,
    pub prev_word: String,
    pub literal_len: usize,
}

/// The plain view of a completer context.
pub struct ContextSpec {
    pub cmd: Seq<char>,
    pub current_word: Seq<char>,
    pub prev_word: Seq<char>,
    pub literal_len: nat,
}

impl View for CompleterContext {
    type V = ContextSpec;

    open spec fn view(&self) -> ContextSpec {
        ContextSpec {
            cmd: self.cmd@,
            current_word: self.current_word@,
            prev_word: self.prev_word@,
            literal_len: self.literal_len as nat,
        }
    }
}

/// The characters at the end of `s` after its last ASCII whitespace.
pub open spec fn trailing_word(s: Seq<char>) -> Seq<char>
    decreases s.len(),
{
    if s.len() == 0 || spec_is_ascii_whitespace(s.last()) {
        seq![]
    } else {
        trailing_word(s.drop_last()).push(s.last())
    }
}

/// Whether some character of `s` is whitespace.
pub open spec fn has_whitespace(s: Seq<char>) -> bool {
    exists|i: int| 0 <= i < s.len() && spec_is_whitespace(s[i])
}

/// The context for the text left of the cursor: nothing when it has no
/// whitespace (the command name is still being typed), does not tokenize,
/// or has no token.  After trailing whitespace the current word is empty
/// and the previous word is the last token; otherwise they are the last
/// two tokens.
pub open spec fn spec_completer_context(s: Seq<char>) -> Option<ContextSpec> {
    if !has_whitespace(s) {
        None
    } else {
        match spec_tokenize(s, Map::empty()) {
            Err(_) => None,
            Ok(ts) => if ts.len() == 0 {
                None
            } else {
                let trailing = s.len() > 0 && spec_is_whitespace(s.last());
                Some(
                    ContextSpec {
                        cmd: ts[0],
                        current_word: if trailing {
                            seq![]
                        } else {
                            ts.last()
                        },
                        prev_word: if trailing {
                            ts.last()
                        } else if ts.len() >= 2 {
                            ts[ts.len() - 2]
                        } else {
                            seq![]
                        },
                        literal_len: if trailing {
                            0
                        } else {
                            utf8_len(trailing_word(s))
                        },
                    },
                )
            },
        }
    }
}

proof fn lemma_trailing_word(s: Seq<char>)
    ensures
        trailing_word(s).len() <= s.len(),
        trailing_word(s) == s.skip(s.len() - trailing_word(s).len()),
    decreases s.len(),
{
    if s.len() > 0 && !spec_is_ascii_whitespace(s.last()) {
        lemma_trailing_word(s.drop_last());
        assert(trailing_word(s) =~= s.skip(s.len() - trailing_word(s).len()));
    } else {
        assert(s.skip(s.len() as int) =~= Seq::<char>::empty());
    }
}

/// The trailing word of `s` is the run of characters after its last ASCII
/// whitespace (all of `s` when it has none): so the `literal_len` of a
/// context is the byte length of that run.
pub proof fn law_trailing_word_is_last_run(s: Seq<char>)
    ensures
        exists|k: int|
            0 <= k <= s.len() && trailing_word(s) == s.skip(k) && (k == 0
                || spec_is_ascii_whitespace(s[k - 1])) && forall|j: int|
                k <= j < s.len() ==> !spec_is_ascii_whitespace(#[trigger] s[j]),
    decreases s.len(),
{
    if s.len() == 0 || spec_is_ascii_whitespace(s.last()) {
        let k = s.len() as int;
        assert(trailing_word(s) =~= s.skip(k));
    } else {
        let init = s.drop_last();
        law_trailing_word_is_last_run(init);
        let k = choose|k: int|
            0 <= k <= init.len() && trailing_word(init) == init.skip(k) && (k == 0
                || spec_is_ascii_whitespace(init[k - 1])) && forall|j: int|
                k <= j < init.len() ==> !spec_is_ascii_whitespace(#[trigger] init[j]);
        assert(trailing_word(s) =~= s.skip(k));
        assert(k == 0 || spec_is_ascii_whitespace(s[k - 1])) by {
            if k > 0 {
                assert(init[k - 1] == s[k - 1]);
            }
        }
        assert forall|j: int| k <= j < s.len() implies !spec_is_ascii_whitespace(#[trigger] s[j]) by {
            if j < s.len() - 1 {
                assert(init[j] == s[j]);
            }
        }
    }
}

/// Builds the context for a completion script from the text left of the
/// cursor; see [`spec_completer_context`].
pub fn extract_completer_context(line_to_pos: &str) -> (r: Option<CompleterContext>)
    ensures
        match spec_completer_context(line_to_pos@) {
            Some(c) => r matches Some(x) && x.cmd@ == c.cmd && x.current_word@ == c.current_word
                && x.prev_word@ == c.prev_word && x.literal_len == c.literal_len,
            None => r is None,
        },
{
    let cs = chars_of(line_to_pos);
    let ghost s = line_to_pos@;
    let _total = byte_len(line_to_pos);
    let mut any_ws = false;
    let mut i: usize = 0;
    while i < cs.len()
        invariant
            i <= cs@.len(),
            cs@ == s,
            any_ws == exists|j: int| 0 <= j < i && spec_is_whitespace(s[j]),
        decreases cs@.len() - i,
    {
        if is_whitespace(cs[i]) {
            any_ws = true;
        }
        i = i + 1;
    }
    if !any_ws {
        return None;
    }
    let empty = StringMap::new();
    let tokens = match tokenize(line_to_pos, &empty) {
        Ok(t) => t,
        Err(_) => return None,
    };
    let ghost ts = tokens.deep_view();
    if tokens.len() == 0 {
        return None;
    }
    let n = tokens.len();
    assert(ts[0] == tokens@[0]@);
    assert(ts[n - 1] == tokens@[n - 1]@);
    assert(n >= 2 ==> ts[n - 2] == tokens@[n - 2]@);
    let cmd = tokens[0].clone();
    let trailing = cs.len() > 0 && is_whitespace(cs[cs.len() - 1]);
    let (current_word, prev_word) = if trailing {
        (String::new(), tokens[n - 1].clone())
    } else {
        let prev = if n >= 2 {
            tokens[n - 2].clone()
        } else {
            String::new()
        };
        (tokens[n - 1].clone(), prev)
    };
    let literal_len = if trailing {
        0
    } else {
        let mut k = cs.len();
        proof {
            assert(s.take(k as int) =~= s);
        }
        while k > 0 && !is_ascii_whitespace(cs[k - 1])
            invariant
                k <= cs@.len(),
                cs@ == s,
                trailing_word(s) == trailing_word(s.take(k as int)) + s.subrange(
                    k as int,
                    s.len() as int,
                ),
            decreases k,
        {
            assert(s.take(k as int).drop_last() =~= s.take(k - 1));
            assert(trailing_word(s.take(k as int)) =~= trailing_word(s.take(k - 1)).push(s[k - 1]));
            assert(trailing_word(s) =~= trailing_word(s.take(k - 1)) + s.subrange(k - 1, s.len() as int));
            k = k - 1;
        }
        proof {
            assert(trailing_word(s.take(k as int)) =~= Seq::<char>::empty());
            assert(trailing_word(s) =~= s.subrange(k as int, s.len() as int));
            lemma_suffix_utf8(s, k as int);
        }
        utf8_len_of(&cs, k, cs.len())
    };
    Some(CompleterContext { cmd, current_word, prev_word, literal_len })
}

proof fn lemma_suffix_utf8(s: Seq<char>, k: int)
    requires
        0 <= k <= s.len(),
    ensures
        utf8_len(s.subrange(k, s.len() as int)) <= utf8_len(s),
    decreases k,
{
    if k > 0 {
        lemma_suffix_utf8(s.subrange(1, s.len() as int), k - 1);
        assert(s.subrange(1, s.len() as int).subrange(k - 1, s.len() - 1) =~= s.subrange(k, s.len() as int));
        lemma_utf8_len_first(s);
    } else {
        assert(s.subrange(k, s.len() as int) =~= s);
    }
}

/// `l` without its trailing carriage returns.
pub open spec fn trim_cr(l: Seq<char>) -> Seq<char>
    decreases l.len(),
{
    if l.len() > 0 && l.last() == '\r' {
        trim_cr(l.drop_last())
    } else {
        l
    }
}

/// The line `l` as a candidate list: empty lines drop out.
pub open spec fn keep_line(l: Seq<char>) -> Seq<Seq<char>> {
    if trim_cr(l).len() > 0 {
        seq![trim_cr(l)]
    } else {
        seq![]
    }
}

/// The non-empty lines of `s` from position `i` on (trailing carriage
/// returns removed), `cur` holding the part of the line already read and
/// `acc` the lines done.
pub open spec fn stdout_lines(s: Seq<char>, i: int, cur: Seq<char>, acc: Seq<Seq<char>>) -> Seq<
    Seq<char>,
>
    decreases s.len() - i,
{
    if i < 0 || i >= s.len() {
        acc + keep_line(cur)
    } else if s[i] == '\n' {
        stdout_lines(s, i + 1, seq![], acc + keep_line(cur))
    } else {
        stdout_lines(s, i + 1, cur.push(s[i]), acc)
    }
}

/// The candidates of a script's output: its non-empty lines, or nothing
/// when there is none.
pub open spec fn spec_parse_completer_stdout(s: Seq<char>) -> Option<Seq<Seq<char>>> {
    let ls = stdout_lines(s, 0, seq![], seq![]);
    if ls.len() == 0 {
        None
    } else {
        Some(ls)
    }
}

/// Appends the line `cur` to `out` unless it is empty once its trailing
/// carriage returns are removed.
fn keep(out: &mut Vec<String>, cur: &Vec<char>)
    ensures
        final(out).deep_view() == old(out).deep_view() + keep_line(cur@),
{
    let mut k = cur.len();
    proof {
        assert(cur@.take(k as int) =~= cur@);
    }
    while k > 0 && cur[k - 1] == '\r'
        invariant
            k <= cur@.len(),
            trim_cr(cur@.take(k as int)) == trim_cr(cur@),
        decreases k,
    {
        assert(cur@.take(k as int).drop_last() =~= cur@.take(k - 1));
        k = k - 1;
    }
    let mut t: Vec<char> = Vec::new();
    let mut i: usize = 0;
    while i < k
        invariant
            i <= k <= cur@.len(),
            t@ == cur@.take(i as int),
        decreases k - i,
    {
        t.push(cur[i]);
        i = i + 1;
        assert(t@ =~= cur@.take(i as int));
    }
    assert(trim_cr(cur@.take(k as int)) == cur@.take(k as int));
    let ghost before = out.deep_view();
    if t.len() > 0 {
        out.push(string_from_chars(&t));
        assert(out.deep_view() =~= before + keep_line(cur@));
    } else {
        assert(before + keep_line(cur@) =~= before);
    }
}

/// The candidates printed by a completion script: one per non-empty line,
/// trailing carriage returns removed; `None` when there is none.
pub fn parse_completer_stdout(stdout: &str) -> (r: Option<Vec<String>>)
    ensures
        match spec_parse_completer_stdout(stdout@) {
            Some(ls) => r matches Some(v) && v.deep_view() == ls,
            None => r is None,
        },
{
    let cs = chars_of(stdout);
    let ghost s = stdout@;
    let mut out: Vec<String> = Vec::new();
    let mut cur: Vec<char> = Vec::new();
    let mut i: usize = 0;
    assert(out.deep_view() =~= Seq::<Seq<char>>::empty());
    while i < cs.len()
        invariant
            i <= cs@.len(),
            cs@ == s,
            stdout_lines(s, 0, seq![], seq![]) == stdout_lines(s, i as int, cur@, out.deep_view()),
        decreases cs@.len() - i,
    {
        if cs[i] == '\n' {
            keep(&mut out, &cur);
            cur.clear();
        } else {
            cur.push(cs[i]);
        }
        i = i + 1;
    }
    keep(&mut out, &cur);
    if out.len() == 0 {
        None
    } else {
        Some(out)
    }
}

} // verus!
