//! Lexical layer of the marker scanner: byte classification, the skippers
//! that find where a comment or a string literal ends, and the
//! whitespace-tolerant token matcher the marker grammars are built from.
//!
//! Each concept exists twice: a recursive spec function that defines the
//! position in the byte sequence, and an executable loop proved to compute
//! exactly that position.

use vstd::prelude::*;

verus! {

/// Line feed.
pub const LF: u8 = 10;

/// Carriage return.
pub const CR: u8 = 13;

/// Space.
pub const SPACE: u8 = 32;

/// `!`
pub const BANG: u8 = 33;

/// `"`
pub const QUOTE: u8 = 34;

/// `#`
pub const POUND: u8 = 35;

/// `(`
pub const LPAREN: u8 = 40;

/// `)`
pub const RPAREN: u8 = 41;

/// `*`
pub const STAR: u8 = 42;

/// `/`
pub const SLASH: u8 = 47;

/// `;`
pub const SEMI: u8 = 59;

/// `=`
pub const EQUALS: u8 = 61;

/// `[`
pub const LBRACKET: u8 = 91;

/// `\`
pub const BACKSLASH: u8 = 92;

/// `]`
pub const RBRACKET: u8 = 93;

/// `_`
pub const UNDERSCORE: u8 = 95;

/// `b`
pub const LOWER_B: u8 = 98;

/// `c`
pub const LOWER_C: u8 = 99;

/// `r`
pub const LOWER_R: u8 = 114;

/// The whitespace bytes tolerated between the tokens of a marker: space,
/// line feed, carriage return, tab, vertical tab and form feed.
pub open spec fn is_ws(b: u8) -> bool {
    b == SPACE || b == LF || b == CR || b == 9 || b == 11 || b == 12
}

/// Exec mirror of [`is_ws`].
pub fn ws_byte(b: u8) -> (r: bool)
    ensures
        r == is_ws(b),
{
    b == SPACE || b == LF || b == CR || b == 9 || b == 11 || b == 12
}

/// Index just past the line feed that ends a line comment whose body starts
/// at `i`, or the end of input if no line feed follows: a comment truncated
/// by the end of input is accepted silently.
pub open spec fn line_comment_end(s: Seq<u8>, i: int) -> int
    decreases s.len() - i,
{
    if i < 0 || i >= s.len() {
        s.len() as int
    } else if s[i] == LF {
        i + 1
    } else {
        line_comment_end(s, i + 1)
    }
}

/// Consume a line comment body starting at `i`.
pub fn skip_line_comment(s: &[u8], i: usize) -> (r: usize)
    requires
        i <= s@.len(),
    ensures
        r as int == line_comment_end(s@, i as int),
        i <= r <= s@.len(),
{
    let mut j = i;
    while j < s.len()
        invariant
            i <= j <= s@.len(),
            line_comment_end(s@, i as int) == line_comment_end(s@, j as int),
        decreases s@.len() - j,
    {
        if s[j] == LF {
            return j + 1;
        }
        j = j + 1;
    }
    j
}

/// Index just past the `*/` that closes a block comment whose body starts at
/// `i` with `depth` comments open. The scan walks two-byte windows: `*/`
/// closes one level, `/*` opens one, and input ending mid-comment stops
/// silently at the end.
pub open spec fn block_comment_end(s: Seq<u8>, i: int, depth: int) -> int
    decreases s.len() - i,
{
    if i < 0 || i >= s.len() {
        s.len() as int
    } else if i + 1 < s.len() && s[i] == STAR && s[i + 1] == SLASH {
        if depth <= 1 {
            i + 2
        } else {
            block_comment_end(s, i + 2, depth - 1)
        }
    } else if i + 1 < s.len() && s[i] == SLASH && s[i + 1] == STAR {
        block_comment_end(s, i + 2, depth + 1)
    } else {
        block_comment_end(s, i + 1, depth)
    }
}

/// Consume a block comment body starting at `i`, one comment already open.
pub fn skip_block_comment(s: &[u8], i: usize) -> (r: usize)
    requires
        i <= s@.len(),
    ensures
        r as int == block_comment_end(s@, i as int, 1),
        i <= r <= s@.len(),
{
    let mut j = i;
    let mut depth: usize = 1;
    while j < s.len()
        invariant
            i <= j <= s@.len(),
            1 <= depth <= j - i + 1,
            block_comment_end(s@, i as int, 1) == block_comment_end(s@, j as int, depth as int),
        decreases s@.len() - j,
    {
        if s[j] == STAR && j + 1 < s.len() && s[j + 1] == SLASH {
            if depth == 1 {
                return j + 2;
            }
            depth = depth - 1;
            j = j + 2;
        } else if s[j] == SLASH && j + 1 < s.len() && s[j + 1] == STAR {
            depth = depth + 1;
            j = j + 2;
        } else {
            j = j + 1;
        }
    }
    j
}

/// Index just past the quote that closes a string literal whose body starts
/// at `i`. The escape flag flips on every backslash and clears on every
/// other byte, so a quote terminates exactly when it follows an even run of
/// backslashes. Input ending mid-string stops silently at the end.
pub open spec fn string_end(s: Seq<u8>, i: int, esc: bool) -> int
    decreases s.len() - i,
{
    if i < 0 || i >= s.len() {
        s.len() as int
    } else if s[i] == QUOTE && !esc {
        i + 1
    } else if s[i] == BACKSLASH && !esc {
        string_end(s, i + 1, true)
    } else {
        string_end(s, i + 1, false)
    }
}

/// Consume a string literal body starting at `i`, just past the opening
/// quote.
pub fn skip_string(s: &[u8], i: usize) -> (r: usize)
    requires
        i <= s@.len(),
    ensures
        r as int == string_end(s@, i as int, false),
        i <= r <= s@.len(),
{
    let mut j = i;
    let mut esc = false;
    while j < s.len()
        invariant
            i <= j <= s@.len(),
            string_end(s@, i as int, false) == string_end(s@, j as int, esc),
        decreases s@.len() - j,
    {
        if s[j] == QUOTE && !esc {
            return j + 1;
        }
        if s[j] == BACKSLASH && !esc {
            esc = true;
        } else {
            esc = false;
        }
        j = j + 1;
    }
    j
}

/// Length of the run of `#` fence bytes starting at `i`.
pub open spec fn pad_run(s: Seq<u8>, i: int) -> int
    decreases s.len() - i,
{
    if i < 0 || i >= s.len() || s[i] != POUND {
        0
    } else {
        1 + pad_run(s, i + 1)
    }
}

/// A raw string entry at `i` (just past the `r`) is well formed when its run
/// of fences is followed by an opening quote.
pub open spec fn raw_entry_ok(s: Seq<u8>, i: int) -> bool {
    i + pad_run(s, i) < s.len() && s[i + pad_run(s, i)] == QUOTE
}

/// Count the fences at `i` and test for the opening quote behind them.
pub fn raw_string_entry(s: &[u8], i: usize) -> (r: (bool, usize))
    requires
        i <= s@.len(),
    ensures
        r.1 as int == pad_run(s@, i as int),
        r.0 == raw_entry_ok(s@, i as int),
        i + r.1 <= s@.len(),
{
    let mut j = i;
    while j < s.len() && s[j] == POUND
        invariant
            i <= j <= s@.len(),
            pad_run(s@, i as int) == j - i + pad_run(s@, j as int),
        decreases s@.len() - j,
    {
        j = j + 1;
    }
    if j < s.len() && s[j] == QUOTE {
        (true, j - i)
    } else {
        (false, j - i)
    }
}

/// The fence run that closes a raw string: `k` `#` bytes starting at `j`,
/// all inside the input.
pub open spec fn pads_match(s: Seq<u8>, j: int, k: int) -> bool {
    j + k <= s.len() && (forall|m: int| j <= m < j + k ==> s[m] == POUND)
}

/// Exec mirror of [`pads_match`].
pub fn check_pads(s: &[u8], j: usize, k: usize) -> (r: bool)
    requires
        j <= s@.len(),
    ensures
        r == pads_match(s@, j as int, k as int),
{
    if k > s.len() - j {
        return false;
    }
    let end = j + k;
    let mut m = j;
    while m < end
        invariant
            j <= m <= end,
            end == j + k <= s@.len(),
            forall|q: int| j <= q < m ==> s@[q] == POUND,
        decreases end - m,
    {
        if s[m] != POUND {
            return false;
        }
        m = m + 1;
    }
    true
}

/// Index just past the close of a raw string whose body starts at `i` and
/// whose opening used `k` fences: the first quote followed by `k` fence
/// bytes ends it; a quote followed by fewer fences is ordinary content.
/// Input ending mid-string stops silently at the end.
pub open spec fn raw_body_end(s: Seq<u8>, i: int, k: int) -> int
    decreases s.len() - i,
{
    if i < 0 || i >= s.len() {
        s.len() as int
    } else if s[i] == QUOTE && pads_match(s, i + 1, k) {
        i + 1 + k
    } else {
        raw_body_end(s, i + 1, k)
    }
}

/// Consume a raw string body starting at `i`, opened with `k` fences.
pub fn skip_raw_body(s: &[u8], i: usize, k: usize) -> (r: usize)
    requires
        i <= s@.len(),
    ensures
        r as int == raw_body_end(s@, i as int, k as int),
        i <= r <= s@.len(),
{
    let mut j = i;
    while j < s.len()
        invariant
            i <= j <= s@.len(),
            raw_body_end(s@, i as int, k as int) == raw_body_end(s@, j as int, k as int),
        decreases s@.len() - j,
    {
        if s[j] == QUOTE && check_pads(s, j + 1, k) {
            return j + 1 + k;
        }
        j = j + 1;
    }
    j
}

/// Index of the first occurrence of `b` at or after `i`, or the length of
/// the input if there is none.
pub open spec fn find_byte(s: Seq<u8>, i: int, b: u8) -> int
    decreases s.len() - i,
{
    if i < 0 || i >= s.len() {
        s.len() as int
    } else if s[i] == b {
        i
    } else {
        find_byte(s, i + 1, b)
    }
}

/// Exec mirror of [`find_byte`].
pub fn find_byte_from(s: &[u8], i: usize, b: u8) -> (r: usize)
    requires
        i <= s@.len(),
    ensures
        r as int == find_byte(s@, i as int, b),
        i <= r <= s@.len(),
{
    let mut j = i;
    while j < s.len()
        invariant
            i <= j <= s@.len(),
            find_byte(s@, i as int, b) == find_byte(s@, j as int, b),
        decreases s@.len() - j,
    {
        if s[j] == b {
            return j;
        }
        j = j + 1;
    }
    j
}

/// Index of the first byte at or after `i` that is not marker whitespace,
/// or the length of the input.
pub open spec fn skip_ws(s: Seq<u8>, i: int) -> int
    decreases s.len() - i,
{
    if i < 0 || i >= s.len() {
        s.len() as int
    } else if is_ws(s[i]) {
        skip_ws(s, i + 1)
    } else {
        i
    }
}

/// Exec mirror of [`skip_ws`].
pub fn skip_ws_from(s: &[u8], i: usize) -> (r: usize)
    requires
        i <= s@.len(),
    ensures
        r as int == skip_ws(s@, i as int),
        i <= r <= s@.len(),
{
    let mut j = i;
    while j < s.len()
        invariant
            i <= j <= s@.len(),
            skip_ws(s@, i as int) == skip_ws(s@, j as int),
        decreases s@.len() - j,
    {
        if !ws_byte(s[j]) {
            return j;
        }
        j = j + 1;
    }
    j
}

/// Match the literal token `tok` byte for byte starting at `i`. On success
/// the result is `(true, index just past the token)`; on a mismatch it is
/// `(false, index of the offending byte)`, where the scan resumes; input
/// running out mid-token counts as a mismatch at the end.
pub open spec fn lit_match(s: Seq<u8>, i: int, tok: Seq<u8>) -> (bool, int)
    decreases tok.len(),
{
    if tok.len() == 0 {
        (true, i)
    } else if i < 0 || i >= s.len() {
        (false, s.len() as int)
    } else if s[i] == tok[0] {
        lit_match(s, i + 1, tok.skip(1))
    } else {
        (false, i)
    }
}

/// Exec mirror of [`lit_match`].
pub fn match_lit(s: &[u8], i: usize, tok: &[u8]) -> (r: (bool, usize))
    requires
        i <= s@.len(),
    ensures
        (r.0, r.1 as int) == lit_match(s@, i as int, tok@),
        i <= r.1 <= s@.len(),
        r.0 ==> r.1 == i + tok@.len(),
{
    let mut j = i;
    let mut k: usize = 0;
    assert(tok@.skip(0) =~= tok@);
    while k < tok.len()
        invariant
            0 <= k <= tok@.len(),
            j == i + k,
            i <= j <= s@.len(),
            lit_match(s@, i as int, tok@) == lit_match(s@, j as int, tok@.skip(k as int)),
        decreases tok@.len() - k,
    {
        if j >= s.len() {
            assert(tok@.skip(k as int).len() > 0);
            return (false, s.len());
        }
        if s[j] != tok[k] {
            assert(tok@.skip(k as int)[0] == tok@[k as int]);
            return (false, j);
        }
        assert(tok@.skip(k as int)[0] == tok@[k as int]);
        assert(tok@.skip(k as int).skip(1) =~= tok@.skip(k + 1));
        j = j + 1;
        k = k + 1;
    }
    assert(tok@.skip(k as int).len() == 0);
    (true, j)
}

/// Match one token of a marker grammar starting at `i`: when `allow_ws`
/// holds, whitespace before the token's first byte is skipped; the first
/// other byte must begin the token, which is then matched literally. The
/// result is as in [`lit_match`].
pub open spec fn token_match(s: Seq<u8>, i: int, tok: Seq<u8>, allow_ws: bool) -> (bool, int)
    decreases s.len() - i,
{
    if i < 0 || i >= s.len() {
        (false, s.len() as int)
    } else if s[i] == tok[0] {
        lit_match(s, i + 1, tok.skip(1))
    } else if allow_ws && is_ws(s[i]) {
        token_match(s, i + 1, tok, allow_ws)
    } else {
        (false, i)
    }
}

/// Exec mirror of [`token_match`].
pub fn match_token(s: &[u8], i: usize, tok: &[u8], allow_ws: bool) -> (r: (bool, usize))
    requires
        i <= s@.len(),
        tok@.len() > 0,
    ensures
        (r.0, r.1 as int) == token_match(s@, i as int, tok@, allow_ws),
        i <= r.1 <= s@.len(),
{
    let mut j = i;
    while j < s.len()
        invariant
            i <= j <= s@.len(),
            tok@.len() > 0,
            token_match(s@, i as int, tok@, allow_ws) == token_match(s@, j as int, tok@, allow_ws),
        decreases s@.len() - j,
    {
        if s[j] == tok[0] {
            let m = match_lit(s, j + 1, &tok[1..tok.len()]);
            assert(tok@.subrange(1, tok@.len() as int) =~= tok@.skip(1));
            return m;
        }
        if !(allow_ws && ws_byte(s[j])) {
            return (false, j);
        }
        j = j + 1;
    }
    (false, j)
}

} // verus!
