//! The parser: turns source text into a syntax tree. A hand-written
//! longest-match lexer feeds a recursive-descent parser for the statement
//! and expression grammar.

use vstd::prelude::*;
use vstd::string::StrSliceExecFns;

use crate::float_bits::is_digit_char;

verus! {

/// The kinds of token the language knows, in the lexer's preference order:
/// on a tie in match length the later kind wins, so the keywords beat a
/// plain identifier of the same length.
#[derive(Debug, Clone, Copy, PartialEq, Eq, Structural)]
pub enum TokenKind {
    Str,
    Int,
    Ident,
    Float,
    LParen,
    RParen,
    Arrow,
    Star,
    Plus,
    Minus,
    Slash,
    Semi,
    Eq,
    Const,
    False,
    Let,
    True,
}

/// One lexed token: its kind and the exact input slice it covers.
#[derive(Debug, Clone, PartialEq)]
pub struct Token {
    pub kind: TokenKind,
    pub text: String,
}

/// Why a submission failed to parse.
#[derive(Debug, Clone, PartialEq)]
pub enum ParseError {
    /// No token matches at this character position.
    InvalidToken { location: usize },
    /// The token at this index cannot continue the grammar.
    UnrecognizedToken { location: usize },
    /// Input ended where the grammar needs more.
    UnrecognizedEof,
    /// A complete form was parsed but input remains at this token index.
    ExtraToken { location: usize },
    /// An integer literal does not fit in 32 signed bits.
    IntOutOfRange { location: usize },
}

// ---------------------------------------------------------------------------
// Character classes
// ---------------------------------------------------------------------------

/// The characters the lexer skips between tokens (Unicode white space).
pub open spec fn is_space_char(c: char) -> bool {
    let u = c as u32;
    (0x9 <= u <= 0xD) || u == 0x20 || u == 0x85 || u == 0xA0 || u == 0x1680 || (0x2000 <= u
        <= 0x200A) || u == 0x2028 || u == 0x2029 || u == 0x202F || u == 0x205F || u == 0x3000
}

/// A character that can open an identifier: the ASCII range from `A` to
/// `z`, which also admits the punctuation between `Z` and `a`.
pub open spec fn is_ident_start_char(c: char) -> bool {
    0x41 <= (c as u32) <= 0x7A
}

/// A character that can continue an identifier: an opener, a digit or `|`.
pub open spec fn is_ident_cont_char(c: char) -> bool {
    is_ident_start_char(c) || is_digit_char(c) || c == '|'
}

fn is_space(c: char) -> (r: bool)
    ensures
        r == is_space_char(c),
{
    let u = c as u32;
    (0x9 <= u && u <= 0xD) || u == 0x20 || u == 0x85 || u == 0xA0 || u == 0x1680 || (0x2000 <= u
        && u <= 0x200A) || u == 0x2028 || u == 0x2029 || u == 0x202F || u == 0x205F || u == 0x3000
}

fn is_digit(c: char) -> (r: bool)
    ensures
        r == is_digit_char(c),
{
    let u = c as u32;
    0x30 <= u && u <= 0x39
}

fn is_ident_start(c: char) -> (r: bool)
    ensures
        r == is_ident_start_char(c),
{
    let u = c as u32;
    0x41 <= u && u <= 0x7A
}

fn is_ident_cont(c: char) -> (r: bool)
    ensures
        r == is_ident_cont_char(c),
{
    is_ident_start(c) || is_digit(c) || c == '|'
}

// ---------------------------------------------------------------------------
// Match lengths, anchored at a position in the input
// ---------------------------------------------------------------------------

/// The length of the run of characters satisfying `digit` from `i`.
pub open spec fn run_digits(s: Seq<char>, i: int) -> int
    decreases s.len() - i,
{
    if 0 <= i < s.len() && is_digit_char(s[i]) {
        1 + run_digits(s, i + 1)
    } else {
        0
    }
}

/// The length of the run of identifier-continuation characters from `i`.
pub open spec fn run_ident(s: Seq<char>, i: int) -> int
    decreases s.len() - i,
{
    if 0 <= i < s.len() && is_ident_cont_char(s[i]) {
        1 + run_ident(s, i + 1)
    } else {
        0
    }
}

/// The length of the run of non-quote characters from `i`.
pub open spec fn run_nonquote(s: Seq<char>, i: int) -> int
    decreases s.len() - i,
{
    if 0 <= i < s.len() && s[i] != '"' {
        1 + run_nonquote(s, i + 1)
    } else {
        0
    }
}

/// The length of the run of white space from `i`.
pub open spec fn run_space(s: Seq<char>, i: int) -> int
    decreases s.len() - i,
{
    if 0 <= i < s.len() && is_space_char(s[i]) {
        1 + run_space(s, i + 1)
    } else {
        0
    }
}

/// How far a string literal reaches from `i`: a quote, one or more other
/// characters, and a closing quote — or nothing.
pub open spec fn str_len(s: Seq<char>, i: int) -> int {
    if 0 <= i < s.len() && s[i] == '"' {
        let r = run_nonquote(s, i + 1);
        if r >= 1 && i + 1 + r < s.len() {
            r + 2
        } else {
            0
        }
    } else {
        0
    }
}

/// How far an integer literal reaches from `i`.
pub open spec fn int_len(s: Seq<char>, i: int) -> int {
    run_digits(s, i)
}

/// How far an identifier reaches from `i`.
pub open spec fn ident_len(s: Seq<char>, i: int) -> int {
    if 0 <= i < s.len() && is_ident_start_char(s[i]) {
        1 + run_ident(s, i + 1)
    } else {
        0
    }
}

/// How far a float literal reaches from `i`: digits, a dot, digits.
pub open spec fn float_len(s: Seq<char>, i: int) -> int {
    let d1 = run_digits(s, i);
    if d1 >= 1 && i + d1 < s.len() && s[i + d1] == '.' {
        let d2 = run_digits(s, i + d1 + 1);
        if d2 >= 1 {
            d1 + 1 + d2
        } else {
            0
        }
    } else {
        0
    }
}

/// How far the fixed text `pat` reaches from `i`: its length, or nothing.
pub open spec fn lit_len(s: Seq<char>, i: int, pat: Seq<char>) -> int {
    if 0 <= i && i + pat.len() <= s.len() && s.subrange(i, i + pat.len()) == pat {
        pat.len() as int
    } else {
        0
    }
}

/// The token kind at a candidate index, in the lexer's preference order.
pub open spec fn kind_of(k: int) -> TokenKind {
    if k == 0 {
        TokenKind::Str
    } else if k == 1 {
        TokenKind::Int
    } else if k == 2 {
        TokenKind::Ident
    } else if k == 3 {
        TokenKind::Float
    } else if k == 4 {
        TokenKind::LParen
    } else if k == 5 {
        TokenKind::RParen
    } else if k == 6 {
        TokenKind::Arrow
    } else if k == 7 {
        TokenKind::Star
    } else if k == 8 {
        TokenKind::Plus
    } else if k == 9 {
        TokenKind::Minus
    } else if k == 10 {
        TokenKind::Slash
    } else if k == 11 {
        TokenKind::Semi
    } else if k == 12 {
        TokenKind::Eq
    } else if k == 13 {
        TokenKind::Const
    } else if k == 14 {
        TokenKind::False
    } else if k == 15 {
        TokenKind::Let
    } else {
        TokenKind::True
    }
}

/// The match length of candidate `k` at position `i`.
pub open spec fn cand_len(s: Seq<char>, i: int, k: int) -> int {
    if k == 0 {
        str_len(s, i)
    } else if k == 1 {
        int_len(s, i)
    } else if k == 2 {
        ident_len(s, i)
    } else if k == 3 {
        float_len(s, i)
    } else if k == 4 {
        lit_len(s, i, seq!['('])
    } else if k == 5 {
        lit_len(s, i, seq![')'])
    } else if k == 6 {
        lit_len(s, i, seq![')', ' ', '=', '>', ' '])
    } else if k == 7 {
        lit_len(s, i, seq!['*'])
    } else if k == 8 {
        lit_len(s, i, seq!['+'])
    } else if k == 9 {
        lit_len(s, i, seq!['-'])
    } else if k == 10 {
        lit_len(s, i, seq!['/'])
    } else if k == 11 {
        lit_len(s, i, seq![';'])
    } else if k == 12 {
        lit_len(s, i, seq!['='])
    } else if k == 13 {
        lit_len(s, i, seq!['c', 'o', 'n', 's', 't'])
    } else if k == 14 {
        lit_len(s, i, seq!['f', 'a', 'l', 's', 'e'])
    } else if k == 15 {
        lit_len(s, i, seq!['l', 'e', 't'])
    } else {
        lit_len(s, i, seq!['t', 'r', 'u', 'e'])
    }
}

/// The longest match among the first `n` candidates and which candidate it
/// is: a match must be nonempty, and on equal length the later candidate
/// wins.
pub open spec fn best_upto(s: Seq<char>, i: int, n: int) -> (int, int)
    decreases n,
{
    if n <= 0 {
        (0, 0)
    } else {
        let (l, j) = best_upto(s, i, n - 1);
        let c = cand_len(s, i, n - 1);
        if c >= 1 && c >= l {
            (c, n - 1)
        } else {
            (l, j)
        }
    }
}

/// Each run stays within the input.
pub proof fn lemma_run_bounds(s: Seq<char>, i: int)
    requires
        0 <= i <= s.len(),
    ensures
        0 <= run_space(s, i) <= s.len() - i,
        0 <= run_digits(s, i) <= s.len() - i,
        0 <= run_ident(s, i) <= s.len() - i,
        0 <= run_nonquote(s, i) <= s.len() - i,
    decreases s.len() - i,
{
    if i < s.len() {
        lemma_run_bounds(s, i + 1);
    }
}

/// Every candidate match stays within the input.
pub proof fn lemma_cand_bound(s: Seq<char>, i: int, k: int)
    requires
        0 <= i <= s.len(),
    ensures
        0 <= cand_len(s, i, k) <= s.len() - i,
{
    lemma_run_bounds(s, i);
    if i < s.len() {
        lemma_run_bounds(s, i + 1);
        let d1 = run_digits(s, i);
        if 0 <= i + d1 + 1 <= s.len() {
            lemma_run_bounds(s, i + d1 + 1);
        }
    }
}

/// The winning match stays within the input.
pub proof fn lemma_best_bound(s: Seq<char>, i: int, n: int)
    requires
        0 <= i <= s.len(),
    ensures
        0 <= best_upto(s, i, n).0 <= s.len() - i,
    decreases n,
{
    if n > 0 {
        lemma_best_bound(s, i, n - 1);
        lemma_cand_bound(s, i, n - 1);
    }
}

/// The tokens of the input from position `i` on: skip white space, then
/// take the longest (latest on ties) candidate match, or report failure
/// where none matches. Each token carries the exact slice it covers.
#[via_fn]
proof fn lex_from_decreases(s: Seq<char>, i: int) {
    if 0 <= i <= s.len() {
        lemma_run_bounds(s, i);
        let w = i + run_space(s, i);
        if w < s.len() {
            lemma_best_bound(s, w, 17);
        }
    }
}

pub open spec fn lex_from(s: Seq<char>, i: int) -> Option<Seq<(TokenKind, Seq<char>)>>
    decreases s.len() - i,
    via lex_from_decreases
{
    if !(0 <= i <= s.len()) {
        None
    } else {
        let w = i + run_space(s, i);
        if w >= s.len() {
            Some(Seq::empty())
        } else {
            let (l, k) = best_upto(s, w, 17);
            if l < 1 {
                None
            } else {
                match lex_from(s, w + l) {
                    None => None,
                    Some(rest) => Some(
                        seq![(kind_of(k), s.subrange(w, w + l))] + rest,
                    ),
                }
            }
        }
    }
}

/// The tokens of a whole input.
pub open spec fn spec_lex(s: Seq<char>) -> Option<Seq<(TokenKind, Seq<char>)>> {
    lex_from(s, 0)
}

/// The kind and text of each token in a lexed list, in order.
pub open spec fn toks_deep(ts: Seq<Token>) -> Seq<(TokenKind, Seq<char>)> {
    Seq::new(ts.len(), |i: int| (ts[i].kind, ts[i].text@))
}

} // verus!

verus! {

// ---------------------------------------------------------------------------
// The lexer
// ---------------------------------------------------------------------------

/// The characters of a string, one by one.
fn str_chars(s: &str) -> (r: Vec<char>)
    ensures
        r@ == s@,
{
    let n = s.unicode_len();
    let mut out: Vec<char> = Vec::new();
    let mut i: usize = 0;
    while i < n
        invariant
            n == s@.len(),
            i <= n,
            out@ == s@.subrange(0, i as int),
        decreases n - i,
    {
        out.push(s.get_char(i));
        i += 1;
        proof {
            assert(out@ =~= s@.subrange(0, i as int));
        }
    }
    proof {
        assert(out@ =~= s@);
    }
    out
}

fn run_digits_exec(chars: &Vec<char>, from: usize) -> (n: usize)
    requires
        from <= chars@.len(),
    ensures
        n as int == run_digits(chars@, from as int),
        from + n <= chars@.len(),
{
    let len = chars.len();
    let mut i = from;
    while i < len && is_digit(chars[i])
        invariant
            len == chars@.len(),
            from <= i <= len,
            run_digits(chars@, from as int) == (i - from) + run_digits(chars@, i as int),
        decreases len - i,
    {
        i += 1;
    }
    i - from
}

fn run_ident_exec(chars: &Vec<char>, from: usize) -> (n: usize)
    requires
        from <= chars@.len(),
    ensures
        n as int == run_ident(chars@, from as int),
        from + n <= chars@.len(),
{
    let len = chars.len();
    let mut i = from;
    while i < len && is_ident_cont(chars[i])
        invariant
            len == chars@.len(),
            from <= i <= len,
            run_ident(chars@, from as int) == (i - from) + run_ident(chars@, i as int),
        decreases len - i,
    {
        i += 1;
    }
    i - from
}

fn run_nonquote_exec(chars: &Vec<char>, from: usize) -> (n: usize)
    requires
        from <= chars@.len(),
    ensures
        n as int == run_nonquote(chars@, from as int),
        from + n <= chars@.len(),
{
    let len = chars.len();
    let mut i = from;
    while i < len && chars[i] != '"'
        invariant
            len == chars@.len(),
            from <= i <= len,
            run_nonquote(chars@, from as int) == (i - from) + run_nonquote(chars@, i as int),
        decreases len - i,
    {
        i += 1;
    }
    i - from
}

fn lit_match(chars: &Vec<char>, pos: usize, pat: &Vec<char>) -> (n: usize)
    requires
        pos <= chars@.len(),
    ensures
        n as int == lit_len(chars@, pos as int, pat@),
        pos + n <= chars@.len(),
{
    let plen = pat.len();
    if plen > chars.len() - pos {
        assert(lit_len(chars@, pos as int, pat@) == 0);
        return 0;
    }
    let clen = chars.len();
    let mut i: usize = 0;
    while i < plen
        invariant
            plen == pat@.len(),
            clen == chars@.len(),
            pos + plen <= clen,
            i <= plen,
            forall|j: int| 0 <= j < i ==> chars@[pos + j] == pat@[j],
        decreases plen - i,
    {
        if chars[pos + i] != pat[i] {
            assert(chars@.subrange(pos as int, pos + plen) != pat@) by {
                assert(chars@.subrange(pos as int, pos + plen)[i as int] != pat@[i as int]);
            }
            return 0;
        }
        i += 1;
    }
    proof {
        assert(chars@.subrange(pos as int, pos + plen) =~= pat@);
    }
    plen
}

/// The match length of candidate `k` at `pos`.
fn cand_exec(chars: &Vec<char>, pos: usize, k: usize) -> (n: usize)
    requires
        pos <= chars@.len(),
        k < 17,
    ensures
        n as int == cand_len(chars@, pos as int, k as int),
        pos + n <= chars@.len(),
{
    let len = chars.len();
    if k == 0 {
        if pos < len && chars[pos] == '"' {
            let r = run_nonquote_exec(chars, pos + 1);
            if r >= 1 && pos + 1 + r < len {
                r + 2
            } else {
                0
            }
        } else {
            0
        }
    } else if k == 1 {
        run_digits_exec(chars, pos)
    } else if k == 2 {
        if pos < len && is_ident_start(chars[pos]) {
            1 + run_ident_exec(chars, pos + 1)
        } else {
            0
        }
    } else if k == 3 {
        let d1 = run_digits_exec(chars, pos);
        if d1 >= 1 && pos + d1 < len && chars[pos + d1] == '.' {
            let d2 = run_digits_exec(chars, pos + d1 + 1);
            if d2 >= 1 {
                d1 + 1 + d2
            } else {
                0
            }
        } else {
            0
        }
    } else {
        let pat: Vec<char> = if k == 4 {
            vec!['(']
        } else if k == 5 {
            vec![')']
        } else if k == 6 {
            vec![')', ' ', '=', '>', ' ']
        } else if k == 7 {
            vec!['*']
        } else if k == 8 {
            vec!['+']
        } else if k == 9 {
            vec!['-']
        } else if k == 10 {
            vec!['/']
        } else if k == 11 {
            vec![';']
        } else if k == 12 {
            vec!['=']
        } else if k == 13 {
            vec!['c', 'o', 'n', 's', 't']
        } else if k == 14 {
            vec!['f', 'a', 'l', 's', 'e']
        } else if k == 15 {
            vec!['l', 'e', 't']
        } else {
            vec!['t', 'r', 'u', 'e']
        };
        proof {
            if k == 4 {
                assert(pat@ =~= seq!['(']);
            } else if k == 5 {
                assert(pat@ =~= seq![')']);
            } else if k == 6 {
                assert(pat@ =~= seq![')', ' ', '=', '>', ' ']);
            } else if k == 7 {
                assert(pat@ =~= seq!['*']);
            } else if k == 8 {
                assert(pat@ =~= seq!['+']);
            } else if k == 9 {
                assert(pat@ =~= seq!['-']);
            } else if k == 10 {
                assert(pat@ =~= seq!['/']);
            } else if k == 11 {
                assert(pat@ =~= seq![';']);
            } else if k == 12 {
                assert(pat@ =~= seq!['=']);
            } else if k == 13 {
                assert(pat@ =~= seq!['c', 'o', 'n', 's', 't']);
            } else if k == 14 {
                assert(pat@ =~= seq!['f', 'a', 'l', 's', 'e']);
            } else if k == 15 {
                assert(pat@ =~= seq!['l', 'e', 't']);
            } else {
                assert(pat@ =~= seq!['t', 'r', 'u', 'e']);
            }
        }
        lit_match(chars, pos, &pat)
    }
}

/// The longest (latest on ties) candidate match at `pos`.
fn token_at_exec(chars: &Vec<char>, pos: usize) -> (r: (usize, usize))
    requires
        pos <= chars@.len(),
    ensures
        r.0 as int == best_upto(chars@, pos as int, 17).0,
        r.1 as int == best_upto(chars@, pos as int, 17).1,
        pos + r.0 <= chars@.len(),
{
    let mut longest: usize = 0;
    let mut index: usize = 0;
    let mut k: usize = 0;
    while k < 17
        invariant
            pos <= chars@.len(),
            k <= 17,
            longest as int == best_upto(chars@, pos as int, k as int).0,
            index as int == best_upto(chars@, pos as int, k as int).1,
            pos + longest <= chars@.len(),
        decreases 17 - k,
    {
        let c = cand_exec(chars, pos, k);
        if c >= 1 && c >= longest {
            longest = c;
            index = k;
        }
        k += 1;
    }
    (longest, index)
}

/// Skipping one white-space character does not change the tokens.
proof fn lemma_lex_space_skip(s: Seq<char>, i: int)
    requires
        0 <= i < s.len(),
        is_space_char(s[i]),
    ensures
        lex_from(s, i) == lex_from(s, i + 1),
{
    assert(run_space(s, i) == 1 + run_space(s, i + 1));
}

/// Joining already-lexed tokens with the tokens of the rest.
pub open spec fn opt_concat(
    pre: Seq<(TokenKind, Seq<char>)>,
    rest: Option<Seq<(TokenKind, Seq<char>)>>,
) -> Option<Seq<(TokenKind, Seq<char>)>> {
    match rest {
        None => None,
        Some(ts) => Some(pre + ts),
    }
}

/// The exact token kind for a winning candidate index.
fn kind_from_index(idx: usize) -> (r: TokenKind)
    requires
        idx < 17,
    ensures
        r == kind_of(idx as int),
{
    if idx == 0 {
        TokenKind::Str
    } else if idx == 1 {
        TokenKind::Int
    } else if idx == 2 {
        TokenKind::Ident
    } else if idx == 3 {
        TokenKind::Float
    } else if idx == 4 {
        TokenKind::LParen
    } else if idx == 5 {
        TokenKind::RParen
    } else if idx == 6 {
        TokenKind::Arrow
    } else if idx == 7 {
        TokenKind::Star
    } else if idx == 8 {
        TokenKind::Plus
    } else if idx == 9 {
        TokenKind::Minus
    } else if idx == 10 {
        TokenKind::Slash
    } else if idx == 11 {
        TokenKind::Semi
    } else if idx == 12 {
        TokenKind::Eq
    } else if idx == 13 {
        TokenKind::Const
    } else if idx == 14 {
        TokenKind::False
    } else if idx == 15 {
        TokenKind::Let
    } else {
        TokenKind::True
    }
}

/// Lex a whole input into tokens, or report the first position where no
/// token matches.
fn tokenize(input: &str) -> (r: Result<Vec<Token>, ParseError>)
    ensures
        (r matches Ok(ts) ==> spec_lex(input@) == Some(toks_deep(ts@))),
        r is Err ==> spec_lex(input@) is None,
{
    let chars = str_chars(input);
    let n = chars.len();
    let mut pos: usize = 0;
    let mut out: Vec<Token> = Vec::new();
    proof {
        assert(toks_deep(out@) =~= Seq::<(TokenKind, Seq<char>)>::empty());
    }
    while pos < n
        invariant
            chars@ == input@,
            n == chars@.len(),
            pos <= n,
            spec_lex(input@) == opt_concat(toks_deep(out@), lex_from(chars@, pos as int)),
        decreases n - pos,
    {
        if is_space(chars[pos]) {
            proof {
                lemma_lex_space_skip(chars@, pos as int);
            }
            pos += 1;
        } else {
            proof {
                assert(run_space(chars@, pos as int) == 0);
            }
            let (len, idx) = token_at_exec(&chars, pos);
            if len == 0 {
                proof {
                    assert(lex_from(chars@, pos as int) is None);
                }
                return Err(ParseError::InvalidToken { location: pos });
            }
            proof {
                lemma_best_index_range(chars@, pos as int, 17);
            }
            let kind = kind_from_index(idx);
            let text = input.substring_char(pos, pos + len).to_owned();
            let ghost pre_toks = toks_deep(out@);
            let ghost tok_view = (kind, input@.subrange(pos as int, pos + len));
            out.push(Token { kind, text });
            proof {
                assert(toks_deep(out@) =~= pre_toks.push(tok_view));
                let rest = lex_from(chars@, pos + len);
                assert(lex_from(chars@, pos as int) == opt_concat(seq![tok_view], rest));
                match rest {
                    None => {},
                    Some(ts) => {
                        assert(pre_toks + (seq![tok_view] + ts) =~= pre_toks.push(tok_view) + ts);
                    },
                }
            }
            pos += len;
        }
    }
    proof {
        assert(run_space(chars@, pos as int) == 0);
        assert(lex_from(chars@, pos as int) == Some(Seq::<(TokenKind, Seq<char>)>::empty()));
        assert(toks_deep(out@) + Seq::<(TokenKind, Seq<char>)>::empty() =~= toks_deep(out@));
    }
    Ok(out)
}

/// A winning match has the length of its winning candidate.
proof fn lemma_best_is_cand(s: Seq<char>, i: int, n: int)
    requires
        best_upto(s, i, n).0 >= 1,
    ensures
        best_upto(s, i, n).0 == cand_len(s, i, best_upto(s, i, n).1),
    decreases n,
{
    if n > 0 {
        let (l, _j) = best_upto(s, i, n - 1);
        let c = cand_len(s, i, n - 1);
        if !(c >= 1 && c >= l) {
            lemma_best_is_cand(s, i, n - 1);
        }
    }
}

/// Every character of a digit run is a digit.
proof fn lemma_run_digits_chars(s: Seq<char>, i: int)
    ensures
        forall|j: int| i <= j < i + run_digits(s, i) ==> is_digit_char(#[trigger] s[j]),
    decreases s.len() - i,
{
    if 0 <= i < s.len() && is_digit_char(s[i]) {
        lemma_run_digits_chars(s, i + 1);
    }
}

/// Every float token the lexer produces is a plain `digits.digits`
/// literal.
proof fn lemma_lex_from_float_tokens(s: Seq<char>, i: int)
    requires
        0 <= i <= s.len(),
        lex_from(s, i) is Some,
    ensures
        float_tokens_simple(lex_from(s, i).unwrap()),
    decreases s.len() - i,
{
    lemma_run_bounds(s, i);
    let w = i + run_space(s, i);
    if w < s.len() {
        let (l, k) = best_upto(s, w, 17);
        lemma_best_bound(s, w, 17);
        lemma_best_index_range(s, w, 17);
        lemma_best_is_cand(s, w, 17);
        lemma_lex_from_float_tokens(s, w + l);
        let rest = lex_from(s, w + l).unwrap();
        let ts = lex_from(s, i).unwrap();
        assert(ts == seq![(kind_of(k), s.subrange(w, w + l))] + rest);
        let t = s.subrange(w, w + l);
        if kind_of(k) == TokenKind::Float {
            assert(k == 3);
            assert(l == float_len(s, w));
            let d1 = run_digits(s, w);
            let d2 = run_digits(s, w + d1 + 1);
            assert(d1 >= 1 && s[w + d1] == '.' && d2 >= 1 && l == d1 + 1 + d2);
            lemma_run_digits_chars(s, w);
            lemma_run_digits_chars(s, w + d1 + 1);
            assert(crate::float_bits::simple_decimal(t)) by {
                assert(t[d1] == '.');
                assert forall|j: int|
                    0 <= j < t.len() && j != d1 implies #[trigger] is_digit_char(t[j]) by {
                    assert(t[j] == s[w + j]);
                    if j < d1 {
                        assert(is_digit_char(s[w + j]));
                    } else {
                        assert(w + d1 + 1 <= w + j < w + d1 + 1 + d2);
                        assert(is_digit_char(s[w + j]));
                    }
                }
            }
        }
        assert forall|j: int|
            0 <= j < ts.len() && (#[trigger] ts[j]).0 == TokenKind::Float implies crate::float_bits::simple_decimal(
            ts[j].1,
        ) by {
            if j > 0 {
                assert(ts[j] == rest[j - 1]);
            }
        }
    } else {
        assert(lex_from(s, i).unwrap() =~= Seq::<(TokenKind, Seq<char>)>::empty());
    }
}

/// Every float token of a fully lexed input is a plain `digits.digits`
/// literal.
pub proof fn lemma_lex_float_tokens(s: Seq<char>)
    requires
        spec_lex(s) is Some,
    ensures
        float_tokens_simple(spec_lex(s).unwrap()),
{
    lemma_lex_from_float_tokens(s, 0);
}

/// The winning candidate index lies among the candidates.
proof fn lemma_best_index_range(s: Seq<char>, i: int, n: int)
    requires
        n >= 1,
    ensures
        0 <= best_upto(s, i, n).1 < n,
    decreases n,
{
    if n > 1 {
        lemma_best_index_range(s, i, n - 1);
    } else {
        assert(best_upto(s, i, 0) == (0int, 0int));
    }
}

} // verus!

verus! {

// ---------------------------------------------------------------------------
// Literal values
// ---------------------------------------------------------------------------

/// Whether every character is an ASCII decimal digit.
pub open spec fn all_digit_chars(s: Seq<char>) -> bool {
    forall|i: int| 0 <= i < s.len() ==> is_digit_char(#[trigger] s[i])
}

/// The numeric value of a digit string.
pub open spec fn digits_value(s: Seq<char>) -> int
    decreases s.len(),
{
    if s.len() == 0 {
        0
    } else {
        digits_value(s.drop_last()) * 10 + (s.last() as u32 - '0' as u32)
    }
}

/// A digit string's value is never negative.
proof fn lemma_digits_nonneg(s: Seq<char>)
    requires
        all_digit_chars(s),
    ensures
        digits_value(s) >= 0,
    decreases s.len(),
{
    if s.len() > 0 {
        assert(all_digit_chars(s.drop_last())) by {
            assert(forall|i: int|
                0 <= i < s.len() - 1 ==> is_digit_char(#[trigger] s.drop_last()[i]));
        }
        lemma_digits_nonneg(s.drop_last());
    }
}

/// A digit string is worth at least any of its prefixes.
proof fn lemma_digits_prefix_le(s: Seq<char>, j: int)
    requires
        all_digit_chars(s),
        0 <= j <= s.len(),
    ensures
        digits_value(s.subrange(0, j)) <= digits_value(s),
    decreases s.len() - j,
{
    if j == s.len() {
        assert(s.subrange(0, j) =~= s);
    } else {
        lemma_digits_prefix_le(s, j + 1);
        let a = s.subrange(0, j);
        let b = s.subrange(0, j + 1);
        assert(b.drop_last() =~= a);
        assert(b.last() == s[j]);
        assert(all_digit_chars(a)) by {
            assert(forall|i: int| 0 <= i < j ==> is_digit_char(#[trigger] a[i]));
        }
        lemma_digits_nonneg(a);
        assert(digits_value(b) == digits_value(a) * 10 + (s[j] as u32 - '0' as u32));
    }
}

/// The value of an all-digit string, when it fits in 32 signed bits.
fn parse_i32_digits(text: &str) -> (r: Option<i32>)
    ensures
        (r matches Some(v) ==> all_digit_chars(text@) && text@.len() >= 1 && v as int
            == digits_value(text@)),
        (all_digit_chars(text@) && text@.len() >= 1 && digits_value(text@) <= i32::MAX as int
            ==> r is Some),
{
    let n = text.unicode_len();
    if n == 0 {
        return None;
    }
    let mut i: usize = 0;
    let mut acc: u64 = 0;
    proof {
        assert(text@.subrange(0, 0) =~= Seq::<char>::empty());
    }
    while i < n
        invariant
            n == text@.len(),
            i <= n,
            forall|j: int| 0 <= j < i ==> is_digit_char(#[trigger] text@[j]),
            acc as int == digits_value(text@.subrange(0, i as int)),
            acc <= 0x7FFF_FFFF,
        decreases n - i,
    {
        let c = text.get_char(i);
        if !is_digit(c) {
            assert(!all_digit_chars(text@));
            return None;
        }
        let d: u64 = ((c as u32) - 0x30) as u64;
        let acc2: u64 = acc * 10 + d;
        proof {
            let b = text@.subrange(0, i + 1);
            assert(b.drop_last() =~= text@.subrange(0, i as int));
            assert(b.last() == text@[i as int]);
            assert(acc2 as int == digits_value(b));
        }
        if acc2 > 0x7FFF_FFFF {
            proof {
                if all_digit_chars(text@) {
                    lemma_digits_prefix_le(text@, i + 1);
                }
            }
            return None;
        }
        acc = acc2;
        i += 1;
    }
    proof {
        assert(text@.subrange(0, n as int) =~= text@);
    }
    Some(acc as i32)
}

// ---------------------------------------------------------------------------
// Recursive descent
// ---------------------------------------------------------------------------

use crate::ast::{deep_all, lemma_deep_all, Expr, ExprV, Identifier, LitV, Operator, Value};

/// Whether an executable parse outcome agrees with the grammar's answer:
/// the same tree and position on success, rejection on rejection.
pub open spec fn parse_outcome_matches(
    spec_r: Option<(ExprV, int)>,
    r: Result<(Expr, usize), ParseError>,
) -> bool {
    match r {
        Ok(p) => spec_r == Some((p.0.deep(), p.1 as int)),
        Err(_) => spec_r is None,
    }
}

/// One statement: a `let` or `const` declaration, an assignment, or an
/// expression.
fn parse_stmt(tokens: &Vec<Token>, pos: usize) -> (r: Result<(Expr, usize), ParseError>)
    requires
        pos <= tokens@.len(),
        float_tokens_simple(toks_deep(tokens@)),
    ensures
        r matches Ok(p) ==> pos < p.1 <= tokens@.len(),
        parse_outcome_matches(spec_parse_stmt(toks_deep(tokens@), pos as int), r),
    decreases tokens@.len() - pos, 3nat,
{
    let n = tokens.len();
    if pos < n && tokens[pos].kind == TokenKind::Let {
        if pos + 1 < n && tokens[pos + 1].kind == TokenKind::Ident {
            if pos + 2 < n && tokens[pos + 2].kind == TokenKind::Eq {
                let (rhs, p) = parse_expr(tokens, pos + 3)?;
                let ident = Identifier::new(tokens[pos + 1].text.clone());
                Ok((Expr::LetAssignment(ident, Box::new(rhs)), p))
            } else {
                Err(ParseError::UnrecognizedToken { location: pos + 2 })
            }
        } else {
            Err(ParseError::UnrecognizedToken { location: pos + 1 })
        }
    } else if pos < n && tokens[pos].kind == TokenKind::Const {
        if pos + 1 < n && tokens[pos + 1].kind == TokenKind::Ident {
            if pos + 2 < n && tokens[pos + 2].kind == TokenKind::Eq {
                let (rhs, p) = parse_expr(tokens, pos + 3)?;
                let ident = Identifier::new(tokens[pos + 1].text.clone());
                Ok((Expr::ConstAssignment(ident, Box::new(rhs)), p))
            } else {
                Err(ParseError::UnrecognizedToken { location: pos + 2 })
            }
        } else {
            Err(ParseError::UnrecognizedToken { location: pos + 1 })
        }
    } else if pos < n && pos + 1 < n && tokens[pos].kind == TokenKind::Ident && tokens[pos
        + 1].kind == TokenKind::Eq {
        let (rhs, p) = parse_expr(tokens, pos + 2)?;
        let ident = Identifier::new(tokens[pos].text.clone());
        Ok((Expr::Assignment(ident, Box::new(rhs)), p))
    } else {
        parse_expr(tokens, pos)
    }
}

/// One expression: a string literal or a factor, then any additive chain.
fn parse_expr(tokens: &Vec<Token>, pos: usize) -> (r: Result<(Expr, usize), ParseError>)
    requires
        pos <= tokens@.len(),
        float_tokens_simple(toks_deep(tokens@)),
    ensures
        r matches Ok(p) ==> pos < p.1 <= tokens@.len(),
        parse_outcome_matches(spec_parse_expr(toks_deep(tokens@), pos as int), r),
    decreases tokens@.len() - pos, 2nat,
{
    let ghost ts = toks_deep(tokens@);
    let n = tokens.len();
    let mut e: Expr;
    let mut p: usize;
    if pos < n && tokens[pos].kind == TokenKind::Str {
        e = Expr::Literal(Value::String(tokens[pos].text.clone()));
        p = pos + 1;
    } else {
        let first = parse_factor(tokens, pos)?;
        e = first.0;
        p = first.1;
    }
    while p < n && (tokens[p].kind == TokenKind::Plus || tokens[p].kind == TokenKind::Minus)
        invariant
            ts == toks_deep(tokens@),
            float_tokens_simple(ts),
            n == tokens@.len(),
            pos < p <= n,
            spec_parse_expr(ts, pos as int) == spec_expr_chain(ts, e.deep(), p as int),
        decreases n - p,
    {
        let op = if tokens[p].kind == TokenKind::Plus {
            Operator::Add
        } else {
            Operator::Sub
        };
        let (rhs, p2) = parse_factor(tokens, p + 1)?;
        e = Expr::BinaryOp(Box::new(e), op, Box::new(rhs));
        p = p2;
    }
    Ok((e, p))
}

/// One factor: a term, then any multiplicative chain.
fn parse_factor(tokens: &Vec<Token>, pos: usize) -> (r: Result<(Expr, usize), ParseError>)
    requires
        pos <= tokens@.len(),
        float_tokens_simple(toks_deep(tokens@)),
    ensures
        r matches Ok(p) ==> pos < p.1 <= tokens@.len(),
        parse_outcome_matches(spec_parse_factor(toks_deep(tokens@), pos as int), r),
    decreases tokens@.len() - pos, 1nat,
{
    let ghost ts = toks_deep(tokens@);
    let n = tokens.len();
    let first = parse_term(tokens, pos)?;
    let mut e = first.0;
    let mut p = first.1;
    while p < n && (tokens[p].kind == TokenKind::Star || tokens[p].kind == TokenKind::Slash)
        invariant
            ts == toks_deep(tokens@),
            float_tokens_simple(ts),
            n == tokens@.len(),
            pos < p <= n,
            spec_parse_factor(ts, pos as int) == spec_factor_chain(ts, e.deep(), p as int),
        decreases n - p,
    {
        let op = if tokens[p].kind == TokenKind::Star {
            Operator::Mul
        } else {
            Operator::Div
        };
        let (rhs, p2) = parse_term(tokens, p + 1)?;
        e = Expr::BinaryOp(Box::new(e), op, Box::new(rhs));
        p = p2;
    }
    Ok((e, p))
}

/// One term: a literal, an identifier, a call with identifier arguments, a
/// function literal, or a parenthesized expression.
fn parse_term(tokens: &Vec<Token>, pos: usize) -> (r: Result<(Expr, usize), ParseError>)
    requires
        pos <= tokens@.len(),
        float_tokens_simple(toks_deep(tokens@)),
    ensures
        r matches Ok(p) ==> pos < p.1 <= tokens@.len(),
        parse_outcome_matches(spec_parse_term(toks_deep(tokens@), pos as int), r),
    decreases tokens@.len() - pos, 0nat,
{
    let ghost ts = toks_deep(tokens@);
    let n = tokens.len();
    if pos >= n {
        return Err(ParseError::UnrecognizedEof);
    }
    let kind = tokens[pos].kind;
    if kind == TokenKind::Int {
        match parse_i32_digits(tokens[pos].text.as_str()) {
            Some(v) => Ok((Expr::Literal(Value::Int(v)), pos + 1)),
            None => Err(ParseError::IntOutOfRange { location: pos }),
        }
    } else if kind == TokenKind::Float {
        proof {
            assert(ts[pos as int].0 == TokenKind::Float);
            assert(crate::float_bits::simple_decimal(ts[pos as int].1));
        }
        if tokens[pos].text.unicode_len() < 0x1000_0000 {
            match crate::float_bits::parse_f64_bits(tokens[pos].text.as_str()) {
                Some(bits) => Ok((Expr::Literal(Value::Float(bits)), pos + 1)),
                None => Err(ParseError::InvalidToken { location: pos }),
            }
        } else {
            Err(ParseError::InvalidToken { location: pos })
        }
    } else if kind == TokenKind::True {
        Ok((Expr::Literal(Value::Bool(true)), pos + 1))
    } else if kind == TokenKind::False {
        Ok((Expr::Literal(Value::Bool(false)), pos + 1))
    } else if kind == TokenKind::Ident {
        if pos + 1 < n && tokens[pos + 1].kind == TokenKind::LParen {
            // a call: the declared arguments are plain identifiers
            let mut args: Vec<Expr> = Vec::new();
            let mut q = pos + 2;
            while q < n && tokens[q].kind == TokenKind::Ident
                invariant
                    ts == toks_deep(tokens@),
                    n == tokens@.len(),
                    pos + 2 <= q <= n,
                    ident_token_run(ts, pos + 2) == (q - pos - 2) + ident_token_run(
                        ts,
                        q as int,
                    ),
                    args@.len() == q - pos - 2,
                    forall|i: int|
                        0 <= i < args@.len() ==> (#[trigger] args@[i]).deep()
                            == ExprV::Identifier(ts[pos + 2 + i].1),
                decreases n - q,
            {
                args.push(Expr::Identifier(Identifier::new(tokens[q].text.clone())));
                q += 1;
            }
            proof {
                assert(ident_token_run(ts, q as int) == 0);
            }
            if q < n && tokens[q].kind == TokenKind::RParen {
                let ident = Identifier::new(tokens[pos].text.clone());
                let ghost run = ident_token_run(ts, pos + 2);
                proof {
                    lemma_deep_all(args@);
                    assert forall|i: int| 0 <= i < args@.len() implies deep_all(args@)[i]
                        == ExprV::Identifier(ts[pos + 2 + i].1) by {
                        assert(deep_all(args@)[i] == args@[i].deep());
                    }
                    assert(deep_all(args@) =~= Seq::new(
                        run as nat,
                        |i: int| ExprV::Identifier(ts[pos + 2 + i].1),
                    ));
                }
                Ok((Expr::CallFunction(ident, args), q + 1))
            } else if q < n {
                Err(ParseError::UnrecognizedToken { location: q })
            } else {
                Err(ParseError::UnrecognizedEof)
            }
        } else {
            Ok((Expr::Identifier(Identifier::new(tokens[pos].text.clone())), pos + 1))
        }
    } else if kind == TokenKind::LParen {
        // collect a run of identifiers to see whether an arrow follows
        let mut ids: Vec<Identifier> = Vec::new();
        let mut q = pos + 1;
        while q < n && tokens[q].kind == TokenKind::Ident
            invariant
                ts == toks_deep(tokens@),
                n == tokens@.len(),
                pos + 1 <= q <= n,
                ident_token_run(ts, pos + 1) == (q - pos - 1) + ident_token_run(ts, q as int),
                ids@.len() == q - pos - 1,
                forall|i: int|
                    0 <= i < ids@.len() ==> (#[trigger] ids@[i])@ == ts[pos + 1 + i].1,
            decreases n - q,
        {
            ids.push(Identifier::new(tokens[q].text.clone()));
            q += 1;
        }
        proof {
            assert(ident_token_run(ts, q as int) == 0);
        }
        let ghost run = ident_token_run(ts, pos + 1);
        if q < n && tokens[q].kind == TokenKind::Arrow {
            // a function literal: statements separated by `;` form the body
            let mut body: Vec<Expr> = Vec::new();
            let mut p = q + 1;
            let mut done = false;
            let ghost q0 = q + 1;
            proof {
                lemma_deep_all(body@);
                assert(deep_all(body@) =~= Seq::<ExprV>::empty());
            }
            while !done
                invariant
                    ts == toks_deep(tokens@),
                    float_tokens_simple(ts),
                    n == tokens@.len(),
                    pos < p <= n,
                    q0 <= n,
                    !done ==> spec_body_chain(ts, Seq::empty(), q0 as int) == spec_body_chain(
                        ts,
                        deep_all(body@),
                        p as int,
                    ),
                    done ==> spec_body_chain(ts, Seq::empty(), q0 as int) == (
                        deep_all(body@),
                        p as int,
                    ),
                decreases n - p, !done as int,
            {
                if p >= n {
                    done = true;
                } else {
                    match parse_stmt(tokens, p) {
                        Ok((stmt, p2)) => {
                            if p2 < n && tokens[p2].kind == TokenKind::Semi {
                                let ghost pre = body@;
                                body.push(stmt);
                                proof {
                                    lemma_deep_all(pre);
                                    lemma_deep_all(body@);
                                    assert forall|i: int| 0 <= i < body@.len() implies deep_all(
                                        body@,
                                    )[i] == deep_all(pre).push(stmt.deep())[i] by {
                                        assert(deep_all(body@)[i] == body@[i].deep());
                                        if i < pre.len() {
                                            assert(body@[i] == pre[i]);
                                            assert(deep_all(pre)[i] == pre[i].deep());
                                        } else {
                                            assert(body@[i] == stmt);
                                        }
                                    }
                                    assert(deep_all(body@) =~= deep_all(pre).push(stmt.deep()));
                                }
                                p = p2 + 1;
                            } else {
                                done = true;
                            }
                        },
                        Err(_) => {
                            done = true;
                        },
                    }
                }
            }
            proof {
                assert(Seq::new(ids@.len(), |i: int| ids@[i]@) =~= Seq::new(
                    run as nat,
                    |i: int| ts[pos + 1 + i].1,
                ));
            }
            Ok((Expr::Function(ids, body), p))
        } else if ids.len() <= 1 {
            // not a function: whatever follows `(` is one parenthesized
            // expression
            let (e, p) = parse_expr(tokens, pos + 1)?;
            if p < n && tokens[p].kind == TokenKind::RParen {
                Ok((e, p + 1))
            } else if p < n {
                Err(ParseError::UnrecognizedToken { location: p })
            } else {
                Err(ParseError::UnrecognizedEof)
            }
        } else if q < n {
            Err(ParseError::UnrecognizedToken { location: q })
        } else {
            Err(ParseError::UnrecognizedEof)
        }
    } else {
        Err(ParseError::UnrecognizedToken { location: pos })
    }
}

/// The expression parser: accepts a single expression.
#[derive(Debug)]
pub struct ExprParser {}

/// The statement-or-expression parser: accepts one declaration, assignment
/// or expression, the shape of one interactive submission.
#[derive(Debug)]
pub struct ExprOrStmtParser {}

impl ExprParser {
    /// A parser for single expressions.
    pub fn new() -> ExprParser {
        ExprParser {  }
    }

    /// Parse a whole input as one expression: exactly the tree the grammar
    /// gives the text, and an error exactly where the grammar rejects it.
    pub fn parse(&self, input: &str) -> (r: Result<Box<Expr>, ParseError>)
        ensures
            (match r {
                Ok(b) => spec_parse_expression(input@) == Some(b.deep()),
                Err(_) => spec_parse_expression(input@) is None,
            }),
    {
        let tokens = tokenize(input)?;
        proof {
            lemma_lex_float_tokens(input@);
        }
        match parse_expr(&tokens, 0) {
            Ok((e, p)) => {
                if p == tokens.len() {
                    Ok(Box::new(e))
                } else {
                    Err(ParseError::ExtraToken { location: p })
                }
            },
            Err(e) => Err(e),
        }
    }
}

impl ExprOrStmtParser {
    /// A parser for single statements or expressions.
    pub fn new() -> ExprOrStmtParser {
        ExprOrStmtParser {  }
    }

    /// Parse a whole input as one statement or expression: exactly the tree
    /// the grammar gives the text, and an error exactly where the grammar
    /// rejects it.
    pub fn parse(&self, input: &str) -> (r: Result<Box<Expr>, ParseError>)
        ensures
            (match r {
                Ok(b) => spec_parse(input@) == Some(b.deep()),
                Err(_) => spec_parse(input@) is None,
            }),
    {
        let tokens = tokenize(input)?;
        proof {
            lemma_lex_float_tokens(input@);
        }
        match parse_stmt(&tokens, 0) {
            Ok((e, p)) => {
                if p == tokens.len() {
                    Ok(Box::new(e))
                } else {
                    Err(ParseError::ExtraToken { location: p })
                }
            },
            Err(e) => Err(e),
        }
    }
}

} // verus!

verus! {

// ---------------------------------------------------------------------------
// The grammar, as a function from tokens to trees
// ---------------------------------------------------------------------------

/// Whether every float token in a lexed list is a plain `digits.digits`
/// literal. Every list the lexer produces satisfies this.
pub open spec fn float_tokens_simple(ts: Seq<(TokenKind, Seq<char>)>) -> bool {
    forall|i: int|
        0 <= i < ts.len() && (#[trigger] ts[i]).0 == TokenKind::Float ==> crate::float_bits::simple_decimal(
            ts[i].1,
        )
}

/// The run of consecutive identifier tokens from `i`.
pub open spec fn ident_token_run(ts: Seq<(TokenKind, Seq<char>)>, i: int) -> int
    decreases ts.len() - i,
{
    if 0 <= i < ts.len() && ts[i].0 == TokenKind::Ident {
        1 + ident_token_run(ts, i + 1)
    } else {
        0
    }
}

/// One statement from token `pos`: a `let` or `const` declaration, an
/// assignment, or an expression — the tree and the position after it, or
/// nothing where the grammar rejects.
pub open spec fn spec_parse_stmt(ts: Seq<(TokenKind, Seq<char>)>, pos: int) -> Option<
    (ExprV, int),
>
    decreases ts.len() - pos, 3nat,
{
    if !(0 <= pos <= ts.len()) {
        None
    } else {
        let n = ts.len() as int;
        if pos < n && ts[pos].0 == TokenKind::Let {
            if pos + 1 < n && ts[pos + 1].0 == TokenKind::Ident {
                if pos + 2 < n && ts[pos + 2].0 == TokenKind::Eq {
                    match spec_parse_expr(ts, pos + 3) {
                        Some((rhs, p)) => Some(
                            (ExprV::LetAssignment(ts[pos + 1].1, Box::new(rhs)), p),
                        ),
                        None => None,
                    }
                } else {
                    None
                }
            } else {
                None
            }
        } else if pos < n && ts[pos].0 == TokenKind::Const {
            if pos + 1 < n && ts[pos + 1].0 == TokenKind::Ident {
                if pos + 2 < n && ts[pos + 2].0 == TokenKind::Eq {
                    match spec_parse_expr(ts, pos + 3) {
                        Some((rhs, p)) => Some(
                            (ExprV::ConstAssignment(ts[pos + 1].1, Box::new(rhs)), p),
                        ),
                        None => None,
                    }
                } else {
                    None
                }
            } else {
                None
            }
        } else if pos < n && pos + 1 < n && ts[pos].0 == TokenKind::Ident && ts[pos + 1].0
            == TokenKind::Eq {
            match spec_parse_expr(ts, pos + 2) {
                Some((rhs, p)) => Some((ExprV::Assignment(ts[pos].1, Box::new(rhs)), p)),
                None => None,
            }
        } else {
            spec_parse_expr(ts, pos)
        }
    }
}

/// One expression from token `pos`: a string literal or a factor, then any
/// additive chain.
pub open spec fn spec_parse_expr(ts: Seq<(TokenKind, Seq<char>)>, pos: int) -> Option<
    (ExprV, int),
>
    decreases ts.len() - pos, 2nat,
{
    if !(0 <= pos <= ts.len()) {
        None
    } else if pos < ts.len() && ts[pos].0 == TokenKind::Str {
        spec_expr_chain(ts, ExprV::Literal(LitV::String(ts[pos].1)), pos + 1)
    } else {
        match spec_parse_factor(ts, pos) {
            // a parsed factor always ends past its start and within the
            // tokens; the test keeps the recursion well founded
            Some((e, p)) => if pos <= p <= ts.len() {
                spec_expr_chain(ts, e, p)
            } else {
                None
            },
            None => None,
        }
    }
}

/// The additive chain: as long as a `+` or `-` follows, take a factor and
/// extend the tree to the left.
pub open spec fn spec_expr_chain(ts: Seq<(TokenKind, Seq<char>)>, e: ExprV, p: int) -> Option<
    (ExprV, int),
>
    decreases ts.len() - p, 0nat,
{
    if 0 <= p < ts.len() && (ts[p].0 == TokenKind::Plus || ts[p].0 == TokenKind::Minus) {
        let op = if ts[p].0 == TokenKind::Plus {
            Operator::Add
        } else {
            Operator::Sub
        };
        match spec_parse_factor(ts, p + 1) {
            Some((rhs, p2)) =>
            // a parsed factor always ends past its start and within the
            // tokens; the test keeps the recursion well founded
            if p + 1 < p2 <= ts.len() {
                spec_expr_chain(ts, ExprV::BinaryOp(Box::new(e), op, Box::new(rhs)), p2)
            } else {
                None
            },
            None => None,
        }
    } else {
        Some((e, p))
    }
}

/// One factor from token `pos`: a term, then any multiplicative chain.
pub open spec fn spec_parse_factor(ts: Seq<(TokenKind, Seq<char>)>, pos: int) -> Option<
    (ExprV, int),
>
    decreases ts.len() - pos, 1nat,
{
    if !(0 <= pos <= ts.len()) {
        None
    } else {
        match spec_parse_term(ts, pos) {
            // a parsed term always ends past its start and within the
            // tokens; the test keeps the recursion well founded
            Some((e, p)) => if pos <= p <= ts.len() {
                spec_factor_chain(ts, e, p)
            } else {
                None
            },
            None => None,
        }
    }
}

/// The multiplicative chain: as long as a `*` or `/` follows, take a term
/// and extend the tree to the left.
pub open spec fn spec_factor_chain(ts: Seq<(TokenKind, Seq<char>)>, e: ExprV, p: int) -> Option<
    (ExprV, int),
>
    decreases ts.len() - p, 0nat,
{
    if 0 <= p < ts.len() && (ts[p].0 == TokenKind::Star || ts[p].0 == TokenKind::Slash) {
        let op = if ts[p].0 == TokenKind::Star {
            Operator::Mul
        } else {
            Operator::Div
        };
        match spec_parse_term(ts, p + 1) {
            Some((rhs, p2)) =>
            // a parsed term always ends past its start and within the
            // tokens; the test keeps the recursion well founded
            if p + 1 <= p2 <= ts.len() && p < p2 {
                spec_factor_chain(ts, ExprV::BinaryOp(Box::new(e), op, Box::new(rhs)), p2)
            } else {
                None
            },
            None => None,
        }
    } else {
        Some((e, p))
    }
}

/// A function body: statements each closed by `;`, as many as parse.
pub open spec fn spec_body_chain(ts: Seq<(TokenKind, Seq<char>)>, acc: Seq<ExprV>, p: int) -> (
    Seq<ExprV>,
    int,
)
    decreases ts.len() - p, 4nat,
{
    if !(0 <= p < ts.len()) {
        (acc, p)
    } else {
        match spec_parse_stmt(ts, p) {
            Some((stmt, p2)) =>
            // a parsed statement always ends past its start; the test keeps
            // the recursion well founded
            if p < p2 && p2 < ts.len() && ts[p2].0 == TokenKind::Semi {
                spec_body_chain(ts, acc.push(stmt), p2 + 1)
            } else {
                (acc, p)
            },
            None => (acc, p),
        }
    }
}

/// One term from token `pos`: a literal, an identifier, a call with
/// identifier arguments, a function literal, or a parenthesized expression.
pub open spec fn spec_parse_term(ts: Seq<(TokenKind, Seq<char>)>, pos: int) -> Option<
    (ExprV, int),
>
    decreases ts.len() - pos, 0nat,
{
    if !(0 <= pos < ts.len()) {
        None
    } else {
        let n = ts.len() as int;
        let k = ts[pos].0;
        let t = ts[pos].1;
        if k == TokenKind::Int {
            if all_digit_chars(t) && t.len() >= 1 && digits_value(t) <= i32::MAX as int {
                Some((ExprV::Literal(LitV::Int(digits_value(t) as i32)), pos + 1))
            } else {
                None
            }
        } else if k == TokenKind::Float {
            if t.len() < 0x1000_0000 {
                Some(
                    (
                        ExprV::Literal(LitV::Float(crate::float_bits::f64_bits_of_decimal(t))),
                        pos + 1,
                    ),
                )
            } else {
                None
            }
        } else if k == TokenKind::True {
            Some((ExprV::Literal(LitV::Bool(true)), pos + 1))
        } else if k == TokenKind::False {
            Some((ExprV::Literal(LitV::Bool(false)), pos + 1))
        } else if k == TokenKind::Ident {
            if pos + 1 < n && ts[pos + 1].0 == TokenKind::LParen {
                let run = ident_token_run(ts, pos + 2);
                let q = pos + 2 + run;
                if q < n && ts[q].0 == TokenKind::RParen {
                    Some(
                        (
                            ExprV::CallFunction(
                                t,
                                Seq::new(run as nat, |i: int| ExprV::Identifier(ts[pos + 2 + i].1)),
                            ),
                            q + 1,
                        ),
                    )
                } else {
                    None
                }
            } else {
                Some((ExprV::Identifier(t), pos + 1))
            }
        } else if k == TokenKind::LParen {
            let run = ident_token_run(ts, pos + 1);
            let q = pos + 1 + run;
            if 0 <= run && q < n && ts[q].0 == TokenKind::Arrow {
                let params = Seq::new(run as nat, |i: int| ts[pos + 1 + i].1);
                let (body, p) = spec_body_chain(ts, Seq::empty(), q + 1);
                Some((ExprV::Function(params, body), p))
            } else if run <= 1 {
                match spec_parse_expr(ts, pos + 1) {
                    Some((e, p)) => if p < n && ts[p].0 == TokenKind::RParen {
                        Some((e, p + 1))
                    } else {
                        None
                    },
                    None => None,
                }
            } else {
                None
            }
        } else {
            None
        }
    }
}

/// A whole input as one statement or expression: lex, parse, and demand
/// that nothing remains.
pub open spec fn spec_parse(s: Seq<char>) -> Option<ExprV> {
    match spec_lex(s) {
        None => None,
        Some(ts) => match spec_parse_stmt(ts, 0) {
            Some((e, p)) => if p == ts.len() {
                Some(e)
            } else {
                None
            },
            None => None,
        },
    }
}

/// A whole input as one expression: lex, parse, and demand that nothing
/// remains.
pub open spec fn spec_parse_expression(s: Seq<char>) -> Option<ExprV> {
    match spec_lex(s) {
        None => None,
        Some(ts) => match spec_parse_expr(ts, 0) {
            Some((e, p)) => if p == ts.len() {
                Some(e)
            } else {
                None
            },
            None => None,
        },
    }
}

} // verus!
