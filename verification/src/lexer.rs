//! Lexical segmentation of an expression string into tokens.
//!
//! A token is a maximal Unicode word-boundary segment of the input that does
//! not start with a whitespace character.  Single-character tokens such as
//! `(`, `)`, `+`, `-`, `*`, `/` and `=` come out as segments of their own even
//! when adjacent to other text, which is exactly what the word-boundary rules
//! give.

use vstd::prelude::*;
use unicode_segmentation::UnicodeSegmentation;
use regex::Regex;

verus! {

/// The sequence of Unicode word-boundary segments of `s`, in order.
pub uninterp spec fn word_segments(s: Seq<char>) -> Seq<Seq<char>>;

/// Relies on `unicode_segmentation::UnicodeSegmentation::split_word_bounds`:
/// the segmentation of a string depends on its characters alone, and the
/// concatenation of the segments is the original string.
#[verifier::external_body]
fn seg_words(s: &str) -> (r: Vec<String>)
    ensures
        r.deep_view() == word_segments(s@),
{
    s.split_word_bounds().map(|w| w.to_string()).collect()
}

/// The characters with the Unicode `White_Space` property.
pub open spec fn whitespace_char(c: char) -> bool {
    c == ' ' || c == '\t' || c == '\n' || c == '\u{b}' || c == '\u{c}' || c == '\r'
        || c == '\u{85}' || c == '\u{a0}' || c == '\u{1680}'
        || ('\u{2000}' <= c && c <= '\u{200a}')
        || c == '\u{2028}' || c == '\u{2029}' || c == '\u{202f}' || c == '\u{205f}'
        || c == '\u{3000}'
}

/// A segment that begins with whitespace; such segments are discarded.
pub open spec fn starts_ws(t: Seq<char>) -> bool {
    t.len() > 0 && whitespace_char(t[0])
}

/// Relies on `regex::Regex::new` and `regex::Regex::is_match` with the
/// pattern `^\s+?`: it matches exactly the strings whose first character has
/// the Unicode `White_Space` property.
#[verifier::external_body]
fn ws_start(s: &str) -> (r: bool)
    ensures
        r == starts_ws(s@),
{
    Regex::new(r"^\s+?").unwrap().is_match(s)
}

/// The word-boundary segments of `segs` that do not begin with whitespace,
/// in order.
pub open spec fn filter_tokens(segs: Seq<Seq<char>>) -> Seq<Seq<char>>
    decreases segs.len(),
{
    if segs.len() == 0 {
        Seq::empty()
    } else {
        let rest = filter_tokens(segs.drop_last());
        if starts_ws(segs.last()) {
            rest
        } else {
            rest.push(segs.last())
        }
    }
}

/// The token sequence of an input string: its word-boundary segments with
/// the whitespace segments discarded.
pub open spec fn tokens_of(s: Seq<char>) -> Seq<Seq<char>> {
    filter_tokens(word_segments(s))
}

/// Split `text` into tokens: Unicode word-boundary segments, whitespace
/// segments discarded.  An empty or whitespace-only input yields no tokens.
pub fn tokenize(text: &str) -> (r: Vec<String>)
    ensures
        r.deep_view() == tokens_of(text@),
{
    let segs = seg_words(text);
    let mut out: Vec<String> = Vec::new();
    let mut i: usize = 0;
    while i < segs.len()
        invariant
            i <= segs.len(),
            out.deep_view() == filter_tokens(segs.deep_view().take(i as int)),
        decreases segs.len() - i,
    {
        proof {
            let sd = segs.deep_view();
            assert(sd.take(i + 1).drop_last() =~= sd.take(i as int));
            assert(sd.take(i + 1).last() == sd[i as int]);
        }
        if !ws_start(segs[i].as_str()) {
            out.push(segs[i].clone());
            proof {
                assert(out.deep_view() =~= filter_tokens(segs.deep_view().take(i + 1)));
            }
        }
        i = i + 1;
    }
    proof {
        assert(segs.deep_view().take(segs.len() as int) =~= segs.deep_view());
    }
    out
}

/// `t` is the single character `c`.
pub open spec fn is_char_tok(t: Seq<char>, c: char) -> bool {
    t.len() == 1 && t[0] == c
}

/// An opening parenthesis token.
pub open spec fn is_open(t: Seq<char>) -> bool {
    is_char_tok(t, '(')
}

/// A closing parenthesis token.
pub open spec fn is_close(t: Seq<char>) -> bool {
    is_char_tok(t, ')')
}

/// The assignment token `=`.
pub open spec fn is_assign_tok(t: Seq<char>) -> bool {
    is_char_tok(t, '=')
}

/// One of the four arithmetic operator tokens `+ - * /`.
pub open spec fn is_arith_op(t: Seq<char>) -> bool {
    is_char_tok(t, '+') || is_char_tok(t, '-') || is_char_tok(t, '*') || is_char_tok(t, '/')
}

/// An operator token in the wide sense: `=` or one of `+ - * /`.
pub open spec fn is_op_tok(t: Seq<char>) -> bool {
    is_assign_tok(t) || is_arith_op(t)
}

/// Whether the token `t` is exactly the single character `c`.
pub fn tok_is(t: &str, c: char) -> (r: bool)
    ensures
        r == is_char_tok(t@, c),
{
    t.unicode_len() == 1 && t.get_char(0) == c
}

/// Whether `t` is one of the four arithmetic operator tokens.
pub fn tok_is_arith_op(t: &str) -> (r: bool)
    ensures
        r == is_arith_op(t@),
{
    tok_is(t, '+') || tok_is(t, '-') || tok_is(t, '*') || tok_is(t, '/')
}

/// Whether two string slices hold the same characters.
pub fn str_eq(a: &str, b: &str) -> (r: bool)
    ensures
        r == (a@ == b@),
{
    let n = a.unicode_len();
    if n != b.unicode_len() {
        proof {
            assert(a@.len() != b@.len());
        }
        return false;
    }
    let mut i: usize = 0;
    while i < n
        invariant
            i <= n,
            n == a@.len(),
            n == b@.len(),
            forall|j: int| 0 <= j < i ==> a@[j] == b@[j],
        decreases n - i,
    {
        if a.get_char(i) != b.get_char(i) {
            return false;
        }
        i = i + 1;
    }
    proof {
        assert(a@ =~= b@);
    }
    true
}

/// The tokens of `ts` joined with a single space between neighbours.
pub open spec fn join_spaces(ts: Seq<Seq<char>>) -> Seq<char>
    decreases ts.len(),
{
    if ts.len() == 0 {
        Seq::empty()
    } else if ts.len() == 1 {
        ts[0]
    } else {
        join_spaces(ts.drop_last()) + seq![' '] + ts.last()
    }
}

/// Join the tokens of `ts` with a single space between neighbours.
pub fn join_tokens(ts: &Vec<String>) -> (r: String)
    ensures
        r@ == join_spaces(ts.deep_view()),
{
    let mut out = String::new();
    let mut i: usize = 0;
    while i < ts.len()
        invariant
            i <= ts.len(),
            out@ == join_spaces(ts.deep_view().take(i as int)),
        decreases ts.len() - i,
    {
        proof {
            let td = ts.deep_view();
            assert(td.take(i + 1).drop_last() =~= td.take(i as int));
            assert(td.take(i + 1).last() == td[i as int]);
            reveal_strlit(" ");
            assert(" "@ =~= seq![' ']);
        }
        if i > 0 {
            out.append(" ");
        }
        out.append(ts[i].as_str());
        i = i + 1;
    }
    proof {
        assert(ts.deep_view().take(ts.len() as int) =~= ts.deep_view());
    }
    out
}

} // verus!
