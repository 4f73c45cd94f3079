//! Pure helpers of TAB completion: common prefixes, the word under the
//! cursor, path splitting and candidate formatting.

use vstd::prelude::*;

use crate::parser::tokenize::{spec_tokenize, tokenize};
use crate::sort::{lemma_sorted_le, sorted, str_le};
use crate::strmap::StringMap;
use crate::text::{
    chars_of, is_whitespace, spec_is_whitespace, string_from_chars, utf8_len, utf8_width,
};

verus! {

/// A completion candidate: the text shown when candidates are listed and
/// the text that replaces the word being completed.
#[derive(Debug, Clone)]
pub struct Candidate {
    pub display: String,
    pub replacement: String,
}

/// The plain view of a candidate.
pub struct CandidateSpec {
    pub display: Seq<char>,
    pub replacement: Seq<char>,
}

impl View for Candidate {
    type V = CandidateSpec;

    open spec fn view(&self) -> CandidateSpec {
        CandidateSpec { display: self.display@, replacement: self.replacement@ }
    }
}

/// The candidate showing `display` and inserting `replacement`.
pub open spec fn candidate(display: Seq<char>, replacement: Seq<char>) -> CandidateSpec {
    CandidateSpec { display, replacement }
}

/// The number of UTF-8 bytes of `c`.
pub fn char_utf8_width(c: char) -> (n: usize)
    ensures
        n == utf8_width(c),
{
    let u = c as u32;
    if u < 0x80 {
        1
    } else if u < 0x800 {
        2
    } else if u < 0x10000 {
        3
    } else {
        4
    }
}

/// The number of UTF-8 bytes of `cs[from..to]`.
pub fn utf8_len_of(cs: &Vec<char>, from: usize, to: usize) -> (n: usize)
    requires
        from <= to <= cs@.len(),
        utf8_len(cs@.subrange(from as int, to as int)) <= usize::MAX,
    ensures
        n == utf8_len(cs@.subrange(from as int, to as int)),
{
    let mut n: usize = 0;
    let mut i = from;
    while i < to
        invariant
            from <= i <= to <= cs@.len(),
            utf8_len(cs@.subrange(from as int, to as int)) <= usize::MAX,
            n == utf8_len(cs@.subrange(from as int, i as int)),
        decreases to - i,
    {
        proof {
            assert(cs@.subrange(from as int, i + 1).drop_last() =~= cs@.subrange(from as int, i as int));
            lemma_utf8_len_prefix(cs@.subrange(from as int, to as int), i + 1 - from);
            assert(cs@.subrange(from as int, to as int).take(i + 1 - from) =~= cs@.subrange(from as int, i + 1));
        }
        n = n + char_utf8_width(cs[i]);
        i = i + 1;
    }
    n
}

pub proof fn lemma_utf8_len_prefix(s: Seq<char>, k: int)
    requires
        0 <= k <= s.len(),
    ensures
        utf8_len(s.take(k)) <= utf8_len(s),
    decreases s.len() - k,
{
    if k < s.len() {
        lemma_utf8_len_prefix(s, k + 1);
        assert(s.take(k + 1).drop_last() =~= s.take(k));
    } else {
        assert(s.take(k) =~= s);
    }
}

/// The length of the common prefix of `a` and `b` from position `i` on.
pub open spec fn common_len(a: Seq<char>, b: Seq<char>, i: int) -> int
    decreases a.len() - i,
{
    if 0 <= i < a.len() && i < b.len() && a[i] == b[i] {
        common_len(a, b, i + 1)
    } else {
        i
    }
}

/// The longest common prefix of `a` and `b`.
pub open spec fn spec_lcp(a: Seq<char>, b: Seq<char>) -> Seq<char> {
    a.take(common_len(a, b, 0))
}

pub proof fn lemma_common_len(a: Seq<char>, b: Seq<char>, i: int)
    requires
        0 <= i <= a.len(),
        i <= b.len(),
    ensures
        i <= common_len(a, b, i) <= a.len(),
        common_len(a, b, i) <= b.len(),
        forall|k: int| i <= k < common_len(a, b, i) ==> a[k] == b[k],
        common_len(a, b, i) == a.len() || common_len(a, b, i) == b.len() || a[common_len(a, b, i)]
            != b[common_len(a, b, i)],
    decreases a.len() - i,
{
    if i < a.len() && i < b.len() && a[i] == b[i] {
        lemma_common_len(a, b, i + 1);
    }
}

/// The longest common prefix of `a` and `b`, compared character by
/// character: the first characters of `a`, borrowed from it.
pub fn longest_common_prefix<'a>(a: &'a str, b: &str) -> (r: &'a str)
    ensures
        r@ == spec_lcp(a@, b@),
        r@ == a@.subrange(0, r@.len() as int),
        r@.is_prefix_of(a@),
        r@.is_prefix_of(b@),
{
    let ac = chars_of(a);
    let bc = chars_of(b);
    proof {
        lemma_common_len(a@, b@, 0);
    }
    let mut i: usize = 0;
    while i < ac.len() && i < bc.len() && ac[i] == bc[i]
        invariant
            i <= ac@.len(),
            ac@ == a@,
            bc@ == b@,
            common_len(a@, b@, i as int) == common_len(a@, b@, 0),
        decreases ac@.len() - i,
    {
        i = i + 1;
    }
    a.substring_char(0, i)
}

/// Whether `t` starts with `p`.
pub fn starts_with(t: &str, p: &str) -> (b: bool)
    ensures
        b == p@.is_prefix_of(t@),
{
    let tc = chars_of(t);
    let pc = chars_of(p);
    if pc.len() > tc.len() {
        return false;
    }
    let mut i: usize = 0;
    while i < pc.len()
        invariant
            i <= pc@.len() <= tc@.len(),
            tc@ == t@,
            pc@ == p@,
            forall|k: int| 0 <= k < i ==> t@[k] == p@[k],
        decreases pc@.len() - i,
    {
        if tc[i] != pc[i] {
            return false;
        }
        i = i + 1;
    }
    assert(t@.take(p@.len() as int) =~= p@);
    true
}

/// The names of `names` that start with `prefix`, in order.
pub open spec fn with_prefix(names: Seq<Seq<char>>, prefix: Seq<char>) -> Seq<Seq<char>> {
    names.filter(|n: Seq<char>| prefix.is_prefix_of(n))
}

/// The names of `names` that start with `prefix`, in their order.
pub fn names_with_prefix(names: &[String], prefix: &str) -> (r: Vec<String>)
    ensures
        r.deep_view() == with_prefix(names.deep_view(), prefix@),
{
    let ghost all = names.deep_view();
    let mut out: Vec<String> = Vec::new();
    let mut i: usize = 0;
    assert(out.deep_view() =~= with_prefix(all.take(0), prefix@));
    while i < names.len()
        invariant
            i <= names@.len(),
            all == names.deep_view(),
            out.deep_view() == with_prefix(all.take(i as int), prefix@),
        decreases names@.len() - i,
    {
        proof {
            reveal_with_fuel(Seq::filter, 1);
            assert(all.take(i + 1).drop_last() =~= all.take(i as int));
            assert(all[i as int] == names@[i as int]@);
        }
        let ghost before = out.deep_view();
        if starts_with(names[i].as_str(), prefix) {
            out.push(names[i].clone());
            assert(out.deep_view() =~= before.push(all[i as int]));
        }
        i = i + 1;
    }
    assert(all.take(names@.len() as int) =~= all);
    out
}

/// The word being completed at the end of `line`: empty after whitespace
/// (or on an empty line); otherwise the last token, or nothing when the
/// line does not tokenize (variables are not expanded here).
pub open spec fn spec_extract_arg_prefix(line: Seq<char>) -> Option<Seq<char>> {
    if line.len() == 0 || spec_is_whitespace(line.last()) {
        Some(seq![])
    } else {
        match spec_tokenize(line, Map::empty()) {
            Ok(ts) => if ts.len() > 0 {
                Some(ts.last())
            } else {
                None
            },
            Err(_) => None,
        }
    }
}

/// The word that an argument completion starts from; see
/// [`spec_extract_arg_prefix`].
pub fn extract_arg_prefix(line_to_pos: &str) -> (r: Option<String>)
    ensures
        match spec_extract_arg_prefix(line_to_pos@) {
            Some(p) => r matches Some(s) && s@ == p,
            None => r is None,
        },
{
    let cs = chars_of(line_to_pos);
    if cs.len() == 0 || is_whitespace(cs[cs.len() - 1]) {
        return Some(String::new());
    }
    let empty = StringMap::new();
    match tokenize(line_to_pos, &empty) {
        Ok(mut ts) => {
            let ghost tv = ts.deep_view();
            if ts.len() > 0 {
                let last = ts.pop().unwrap();
                assert(last@ == tv.last());
                Some(last)
            } else {
                None
            }
        },
        Err(_) => None,
    }
}

/// The position just after the last `/` of `s`, or 0 when there is none.
pub open spec fn dir_end(s: Seq<char>) -> int
    decreases s.len(),
{
    if s.len() == 0 {
        0
    } else if s.last() == '/' {
        s.len() as int
    } else {
        dir_end(s.drop_last())
    }
}

proof fn lemma_dir_end(s: Seq<char>)
    ensures
        0 <= dir_end(s) <= s.len(),
    decreases s.len(),
{
    if s.len() > 0 && s.last() != '/' {
        lemma_dir_end(s.drop_last());
    }
}

/// Splits a path at its last `/`: the directory part keeps the `/`, the
/// name part is what follows it.
pub fn split_dir_and_name<'a>(token: &'a str) -> (r: (&'a str, &'a str))
    ensures
        r.0@ == token@.take(dir_end(token@)),
        r.1@ == token@.skip(dir_end(token@)),
{
    let cs = chars_of(token);
    let mut k = cs.len();
    proof {
        lemma_dir_end(token@);
        assert(token@.take(k as int) =~= token@);
    }
    while k > 0 && cs[k - 1] != '/'
        invariant
            k <= cs@.len(),
            cs@ == token@,
            dir_end(token@.take(k as int)) == dir_end(token@),
        decreases k,
    {
        assert(token@.take(k as int).drop_last() =~= token@.take(k - 1));
        k = k - 1;
    }
    proof {
        if k > 0 {
            assert(token@.take(k as int).last() == '/');
        }
    }
    let n = cs.len();
    assert(token@.skip(k as int) =~= token@.subrange(k as int, n as int));
    (token.substring_char(0, k), token.substring_char(k, n))
}

/// What a completed path refers to.
#[derive(Debug, Clone, Copy, PartialEq, Eq, Structural)]
pub enum MatchKind {
    /// A file (or anything that is not a directory).
    File,
    /// A directory.
    Directory,
}

/// The candidate for a completed path: a directory gets a trailing `/`, a
/// file a trailing space in the replacement.
pub open spec fn arg_completion(full: Seq<char>, kind: MatchKind) -> CandidateSpec {
    match kind {
        MatchKind::Directory => candidate(full.push('/'), full.push('/')),
        MatchKind::File => candidate(full, full.push(' ')),
    }
}

/// The candidate for the completed path `full`.
pub fn format_arg_completion(full: &str, kind: MatchKind) -> (p: Candidate)
    ensures
        p@ == arg_completion(full@, kind),
{
    let fc = chars_of(full);
    let mut with_slash = fc.clone();
    with_slash.push('/');
    let mut with_space = fc.clone();
    with_space.push(' ');
    match kind {
        MatchKind::Directory => Candidate {
            display: string_from_chars(&with_slash),
            replacement: string_from_chars(&with_slash),
        },
        MatchKind::File => Candidate {
            display: full.to_owned(),
            replacement: string_from_chars(&with_space),
        },
    }
}


/// A prefix shared by two strings is shared by every string between them.
proof fn lemma_prefix_between(a: Seq<char>, x: Seq<char>, b: Seq<char>, p: Seq<char>)
    requires
        str_le(a, x),
        str_le(x, b),
        p.is_prefix_of(a),
        p.is_prefix_of(b),
    ensures
        p.is_prefix_of(x),
    decreases p.len(),
{
    if p.len() > 0 {
        assert(a[0] == p[0]);
        assert(b[0] == p[0]);
        assert(x.len() > 0);
        assert(x[0] == p[0]) by {
            if x[0] != a[0] {
                assert(a[0] < x[0]);
                assert(x[0] < b[0]);
            }
        }
        let p1 = p.drop_first();
        assert(p1.is_prefix_of(a.drop_first())) by {
            assert(p1 =~= a.drop_first().subrange(0, p1.len() as int));
        }
        assert(p1.is_prefix_of(b.drop_first())) by {
            assert(p1 =~= b.drop_first().subrange(0, p1.len() as int));
        }
        lemma_prefix_between(a.drop_first(), x.drop_first(), b.drop_first(), p1);
        assert(p =~= x.subrange(0, p.len() as int)) by {
            assert forall|k: int| 0 <= k < p.len() implies p[k] == x[k] by {
                if k > 0 {
                    assert(p1[k - 1] == x.drop_first()[k - 1]);
                }
            }
        }
    }
}

/// For strings in sorted order, the longest common prefix of the first and
/// the last is the longest prefix common to all of them.
pub proof fn law_lcp_of_sorted_ends(s: Seq<Seq<char>>)
    requires
        sorted(s),
        s.len() > 0,
    ensures
        forall|j: int| 0 <= j < s.len() ==> spec_lcp(s[0], s.last()).is_prefix_of(#[trigger] s[j]),
        forall|p: Seq<char>|
            (forall|j: int| 0 <= j < s.len() ==> p.is_prefix_of(#[trigger] s[j])) ==> p.is_prefix_of(
                spec_lcp(s[0], s.last()),
            ),
{
    let a = s[0];
    let b = s.last();
    let l = spec_lcp(a, b);
    lemma_common_len(a, b, 0);
    let cl = common_len(a, b, 0);
    assert(l.is_prefix_of(a)) by {
        assert(l =~= a.subrange(0, cl));
    }
    assert(l.is_prefix_of(b)) by {
        assert forall|k: int| 0 <= k < cl implies l[k] == b[k] by {}
        assert(l =~= b.subrange(0, cl));
    }
    assert forall|j: int| 0 <= j < s.len() implies l.is_prefix_of(#[trigger] s[j]) by {
        lemma_sorted_le(s, 0, j);
        lemma_sorted_le(s, j, s.len() - 1);
        lemma_prefix_between(a, s[j], b, l);
    }
    assert forall|p: Seq<char>|
        (forall|j: int| 0 <= j < s.len() ==> p.is_prefix_of(#[trigger] s[j])) implies p.is_prefix_of(
        l,
    ) by {
        assert(p.is_prefix_of(s[0]));
        assert(p.is_prefix_of(s[s.len() - 1]));
        assert forall|k: int| 0 <= k < p.len() implies a[k] == b[k] by {
            assert(a.subrange(0, p.len() as int)[k] == a[k]);
            assert(b.subrange(0, p.len() as int)[k] == b[k]);
        }
        if p.len() > cl {
            assert(a[cl] == b[cl]);
        }
        assert(p =~= l.subrange(0, p.len() as int)) by {
            assert forall|k: int| 0 <= k < p.len() implies p[k] == l[k] by {
                assert(a.subrange(0, p.len() as int)[k] == a[k]);
            }
        }
    }
}

} // verus!
