//! Marker matchers: starting from the byte that made a marker plausible,
//! decide whether the upcoming bytes complete one of the three marker
//! grammars, tolerating whitespace between tokens.
//!
//! An attempt has three outcomes. A miss names the byte where ordinary
//! scanning resumes: the consumed prefix turned out to be ordinary text. A
//! hit names the span to replace (including the indentation run before it)
//! and the rendered replacement text. Anything else is malformed source: a
//! marker prefix whose grammar never completes aborts the whole scan.

use vstd::prelude::*;

use crate::literals::{int_lit_value, parse_int_lit, parse_str_lit, str_lit_value};
use crate::render::{
    blank_text, comment_text, doc_text, le_bytes, le_len, push_ending, render_blank_lines,
    render_comment_text, render_doc_text, LineEnding,
};
use crate::scan::{
    find_byte, find_byte_from, match_token, pad_run, raw_body_end, raw_entry_ok, raw_string_entry,
    skip_raw_body, skip_string, skip_ws, skip_ws_from, string_end, token_match, BANG, CR, EQUALS,
    LBRACKET, LF, LOWER_R, LPAREN, QUOTE, RBRACKET, RPAREN, SEMI,
};
use crate::Error;

verus! {

/// Ghost outcome of one marker attempt.
pub enum MarkerHit {
    /// No marker: ordinary scanning resumes at this index.
    Miss(int),
    /// A marker prefix whose grammar never completes: the scan aborts.
    Bad,
    /// A complete marker: the bytes of `start..end` are replaced by `text`.
    Hit { start: int, end: int, text: Seq<u8> },
}

/// Exec outcome of one marker attempt; an error stands for [`MarkerHit::Bad`].
pub enum MarkerOutcome {
    /// No marker: ordinary scanning resumes at this index.
    Miss { resume: usize },
    /// A complete marker: the bytes of `start..end` are replaced by `text`.
    Hit { start: usize, end: usize, text: Vec<u8> },
}

/// The exec outcome `r` is the attempt `a`.
pub open spec fn reflects(a: MarkerHit, r: Result<MarkerOutcome, Error>) -> bool {
    match r {
        Ok(MarkerOutcome::Miss { resume }) => a == MarkerHit::Miss(resume as int),
        Ok(MarkerOutcome::Hit { start, end, text }) => a == (MarkerHit::Hit {
            start: start as int,
            end: end as int,
            text: text@,
        }),
        Err(_) => a == MarkerHit::Bad,
    }
}

/// Bounds the scan driver relies on: a miss resumes strictly past `i` and
/// inside the input; a hit starts at the head of the indentation run and
/// ends strictly past `i` and inside the input.
pub open spec fn outcome_bounded(
    r: Result<MarkerOutcome, Error>,
    s: Seq<u8>,
    i: int,
    indent: int,
) -> bool {
    match r {
        Ok(MarkerOutcome::Miss { resume }) => i < resume <= s.len(),
        Ok(MarkerOutcome::Hit { start, end, text }) => start == i - indent && i < end <= s.len(),
        Err(_) => true,
    }
}

/// The tail of the blank marker token `_blank_` past its first two bytes.
pub open spec fn tok_lank() -> Seq<u8> {
    seq![108u8, 97u8, 110u8, 107u8, 95u8]
}

/// The tail of the comment marker token `_comment_` past its first two
/// bytes.
pub open spec fn tok_omment() -> Seq<u8> {
    seq![111u8, 109u8, 109u8, 101u8, 110u8, 116u8, 95u8]
}

/// The `doc` keyword of a doc block.
pub open spec fn tok_doc() -> Seq<u8> {
    seq![100u8, 111u8, 99u8]
}

/// The line ending directly at `q`: a line feed, or a carriage return
/// followed by a line feed; anything else means no recognizable line
/// terminator follows the marker.
pub open spec fn ending_at(s: Seq<u8>, q: int) -> Option<LineEnding> {
    if 0 <= q < s.len() && s[q] == LF {
        Some(LineEnding::Lf)
    } else if 0 <= q && q + 1 < s.len() && s[q] == CR && s[q + 1] == LF {
        Some(LineEnding::CrLf)
    } else {
        None
    }
}

/// Exec mirror of [`ending_at`].
pub fn detect_line_ending(s: &[u8], q: usize) -> (r: Option<LineEnding>)
    requires
        q <= s@.len(),
    ensures
        r == ending_at(s@, q as int),
        r is Some ==> q + le_len(r.unwrap()) <= s@.len(),
{
    if q >= s.len() {
        None
    } else if s[q] == LF {
        Some(LineEnding::Lf)
    } else if s[q] == CR && q + 1 < s.len() && s[q + 1] == LF {
        Some(LineEnding::CrLf)
    } else {
        None
    }
}

/// Exec mirror of [`le_len`].
pub fn ending_len(le: LineEnding) -> (r: usize)
    ensures
        r as int == le_len(le),
{
    match le {
        LineEnding::Lf => 1,
        LineEnding::CrLf => 2,
    }
}

/// Outcome of attempting a blank marker at `i`, the index of its leading
/// underscore, with `indent` spaces directly before it. Grammar:
/// `_blank_` `!` `(` integer-literal? `)` `;` line-ending, whitespace
/// tolerated between tokens. The span from the head of the indentation to
/// just past the line ending is replaced by the payload's count of bare
/// line endings (one if absent).
pub open spec fn blank_attempt(s: Seq<u8>, i: int, indent: int) -> MarkerHit {
    let m1 = token_match(s, i + 2, tok_lank(), false);
    if !m1.0 {
        MarkerHit::Miss(m1.1)
    } else {
        let m2 = token_match(s, m1.1, seq![BANG], true);
        if !m2.0 {
            MarkerHit::Miss(m2.1)
        } else {
            let m3 = token_match(s, m2.1, seq![LPAREN], true);
            if !m3.0 {
                MarkerHit::Miss(m3.1)
            } else {
                let vs = m3.1;
                let cp = find_byte(s, vs, RPAREN);
                if cp >= s.len() {
                    MarkerHit::Bad
                } else {
                    let m4 = token_match(s, cp + 1, seq![SEMI], true);
                    if !m4.0 {
                        MarkerHit::Bad
                    } else {
                        match ending_at(s, m4.1) {
                            None => MarkerHit::Bad,
                            Some(le) => {
                                let val = s.subrange(vs, cp);
                                if val.len() == 0 {
                                    MarkerHit::Hit {
                                        start: i - indent,
                                        end: m4.1 + le_len(le),
                                        text: le_bytes(le),
                                    }
                                } else {
                                    match int_lit_value(val) {
                                        None => MarkerHit::Bad,
                                        Some(n) => MarkerHit::Hit {
                                            start: i - indent,
                                            end: m4.1 + le_len(le),
                                            text: blank_text(n as int, le),
                                        },
                                    }
                                }
                            },
                        }
                    }
                }
            }
        }
    }
}

/// Exec mirror of [`blank_attempt`].
pub fn match_blank_marker(s: &[u8], i: usize, indent: usize) -> (r: Result<MarkerOutcome, Error>)
    requires
        indent <= i,
        i + 2 <= s@.len(),
    ensures
        reflects(blank_attempt(s@, i as int, indent as int), r),
        outcome_bounded(r, s@, i as int, indent as int),
{
    let n = s.len();
    assert(n == s@.len());
    let lank: [u8; 5] = [108, 97, 110, 107, 95];
    assert(lank@ =~= tok_lank());
    let m1 = match_token(s, i + 2, &lank, false);
    if !m1.0 {
        return Ok(MarkerOutcome::Miss { resume: m1.1 });
    }
    let bang: [u8; 1] = [BANG];
    assert(bang@ =~= seq![BANG]);
    let m2 = match_token(s, m1.1, &bang, true);
    if !m2.0 {
        return Ok(MarkerOutcome::Miss { resume: m2.1 });
    }
    let lparen: [u8; 1] = [LPAREN];
    assert(lparen@ =~= seq![LPAREN]);
    let m3 = match_token(s, m2.1, &lparen, true);
    if !m3.0 {
        return Ok(MarkerOutcome::Miss { resume: m3.1 });
    }
    let vs = m3.1;
    let cp = find_byte_from(s, vs, RPAREN);
    if cp >= s.len() {
        return Err(Error::BadSourceCode("Unexpected end of input".to_owned()));
    }
    let semi: [u8; 1] = [SEMI];
    assert(semi@ =~= seq![SEMI]);
    let m4 = match_token(s, cp + 1, &semi, true);
    if !m4.0 {
        return Err(Error::BadSourceCode("Unable to match suffix on doc block or marker.".to_owned()));
    }
    let le = match detect_line_ending(s, m4.1) {
        None => {
            return Err(Error::BadSourceCode("Expected CR or LF".to_owned()));
        },
        Some(le) => le,
    };
    let end = m4.1 + ending_len(le);
    let val = &s[vs..cp];
    let mut text: Vec<u8> = Vec::new();
    if val.len() == 0 {
        push_ending(&mut text, le);
        assert(text@ =~= le_bytes(le));
    } else {
        let n = match parse_int_lit(val) {
            Err(m) => {
                return Err(Error::BadSourceCode(m));
            },
            Ok(n) => n,
        };
        render_blank_lines(&mut text, n, le);
        assert(text@ =~= blank_text(n as int, le));
    }
    Ok(MarkerOutcome::Hit { start: i - indent, end, text })
}

/// What a comment marker's payload span renders to: a bare comment line for
/// an absent payload, the decoded literal split into comment lines
/// otherwise, or nothing when the literal does not parse.
pub open spec fn comment_payload(indent: int, val: Seq<u8>, le: LineEnding) -> Option<Seq<u8>> {
    if val.len() == 0 {
        Some(comment_text(indent, Seq::empty(), le))
    } else {
        match str_lit_value(val) {
            None => None,
            Some(c) => Some(comment_text(indent, c, le)),
        }
    }
}

/// What a doc block's payload span renders to, as in [`comment_payload`]
/// but with doc lines.
pub open spec fn doc_payload(indent: int, val: Seq<u8>, le: LineEnding) -> Option<Seq<u8>> {
    if val.len() == 0 {
        Some(doc_text(indent, Seq::empty(), le))
    } else {
        match str_lit_value(val) {
            None => None,
            Some(c) => Some(doc_text(indent, c, le)),
        }
    }
}

/// Closing stage of a comment marker whose payload span is `val` and whose
/// suffix begins at `q0`: an optional `)` (absent when the empty-payload
/// path already saw it), then `;`, then the line ending, then the
/// rendering. Every failure here is malformed source.
pub open spec fn comment_tail(
    s: Seq<u8>,
    i: int,
    indent: int,
    val: Seq<u8>,
    q0: int,
    with_paren: bool,
) -> MarkerHit {
    let mp = if with_paren {
        token_match(s, q0, seq![RPAREN], true)
    } else {
        (true, q0)
    };
    if !mp.0 {
        MarkerHit::Bad
    } else {
        let m = token_match(s, mp.1, seq![SEMI], true);
        if !m.0 {
            MarkerHit::Bad
        } else {
            match ending_at(s, m.1) {
                None => MarkerHit::Bad,
                Some(le) => match comment_payload(indent, val, le) {
                    None => MarkerHit::Bad,
                    Some(text) => MarkerHit::Hit {
                        start: i - indent,
                        end: m.1 + le_len(le),
                        text,
                    },
                },
            }
        }
    }
}

/// Closing stage of a doc block whose payload span is `val` and whose
/// suffix begins at `q0`: a `]`, then the line ending, then the rendering.
pub open spec fn doc_tail(s: Seq<u8>, i: int, indent: int, val: Seq<u8>, q0: int) -> MarkerHit {
    let m = token_match(s, q0, seq![RBRACKET], true);
    if !m.0 {
        MarkerHit::Bad
    } else {
        match ending_at(s, m.1) {
            None => MarkerHit::Bad,
            Some(le) => match doc_payload(indent, val, le) {
                None => MarkerHit::Bad,
                Some(text) => MarkerHit::Hit { start: i - indent, end: m.1 + le_len(le), text },
            },
        }
    }
}

/// Outcome of attempting a comment marker at `i`, the index of its leading
/// underscore, with `indent` spaces directly before it. Grammar:
/// `_comment_` `!` `(` string-literal? `)` `;` line-ending, whitespace
/// tolerated between tokens, the literal plain or raw. The span from the
/// head of the indentation to just past the line ending is replaced by one
/// comment line per line of the decoded payload.
pub open spec fn comment_attempt(s: Seq<u8>, i: int, indent: int) -> MarkerHit {
    let m1 = token_match(s, i + 2, tok_omment(), false);
    if !m1.0 {
        MarkerHit::Miss(m1.1)
    } else {
        let m2 = token_match(s, m1.1, seq![BANG], true);
        if !m2.0 {
            MarkerHit::Miss(m2.1)
        } else {
            let m3 = token_match(s, m2.1, seq![LPAREN], true);
            if !m3.0 {
                MarkerHit::Miss(m3.1)
            } else {
                let vs = m3.1;
                let p = skip_ws(s, vs);
                if p >= s.len() {
                    MarkerHit::Bad
                } else if s[p] == RPAREN {
                    comment_tail(s, i, indent, s.subrange(vs, p), p + 1, false)
                } else if s[p] == QUOTE {
                    let ve = string_end(s, p + 1, false);
                    comment_tail(s, i, indent, s.subrange(vs, ve), ve, true)
                } else if s[p] == LOWER_R {
                    if raw_entry_ok(s, p + 1) {
                        let k = pad_run(s, p + 1);
                        let ve = raw_body_end(s, p + 2 + k, k);
                        comment_tail(s, i, indent, s.subrange(vs, ve), ve, true)
                    } else {
                        MarkerHit::Bad
                    }
                } else {
                    MarkerHit::Bad
                }
            }
        }
    }
}

/// Outcome of attempting a doc block at `i`, the index of its `#`, with
/// `indent` spaces directly before it. Grammar: `#` `[` `doc` `=`
/// string-literal `]` line-ending, whitespace tolerated between tokens, the
/// literal plain or raw and not optional. The span from the head of the
/// indentation to just past the line ending is replaced by one doc line per
/// line of the decoded payload.
pub open spec fn doc_attempt(s: Seq<u8>, i: int, indent: int) -> MarkerHit {
    let m1 = token_match(s, i + 1, seq![LBRACKET], true);
    if !m1.0 {
        MarkerHit::Miss(m1.1)
    } else {
        let m2 = token_match(s, m1.1, tok_doc(), true);
        if !m2.0 {
            MarkerHit::Miss(m2.1)
        } else {
            let m3 = token_match(s, m2.1, seq![EQUALS], true);
            if !m3.0 {
                MarkerHit::Miss(m3.1)
            } else {
                let vs = m3.1;
                let p = skip_ws(s, vs);
                if p >= s.len() {
                    MarkerHit::Bad
                } else if s[p] == QUOTE {
                    let ve = string_end(s, p + 1, false);
                    doc_tail(s, i, indent, s.subrange(vs, ve), ve)
                } else if s[p] == LOWER_R {
                    if raw_entry_ok(s, p + 1) {
                        let k = pad_run(s, p + 1);
                        let ve = raw_body_end(s, p + 2 + k, k);
                        doc_tail(s, i, indent, s.subrange(vs, ve), ve)
                    } else {
                        MarkerHit::Bad
                    }
                } else {
                    MarkerHit::Bad
                }
            }
        }
    }
}

/// Exec mirror of [`comment_tail`]: render and package the hit, or report
/// how the grammar failed to close.
fn finish_comment(
    s: &[u8],
    i: usize,
    indent: usize,
    vs: usize,
    ve: usize,
    q0: usize,
    with_paren: bool,
) -> (r: Result<MarkerOutcome, Error>)
    requires
        indent <= i,
        i < q0 <= s@.len(),
        vs <= ve <= s@.len(),
    ensures
        reflects(
            comment_tail(
                s@,
                i as int,
                indent as int,
                s@.subrange(vs as int, ve as int),
                q0 as int,
                with_paren,
            ),
            r,
        ),
        outcome_bounded(r, s@, i as int, indent as int),
{
    let n = s.len();
    assert(n == s@.len());
    let q1 = if with_paren {
        let rparen: [u8; 1] = [RPAREN];
        assert(rparen@ =~= seq![RPAREN]);
        let mp = match_token(s, q0, &rparen, true);
        if !mp.0 {
            return Err(Error::BadSourceCode(
                "Unable to match suffix on doc block or marker.".to_owned(),
            ));
        }
        mp.1
    } else {
        q0
    };
    let semi: [u8; 1] = [SEMI];
    assert(semi@ =~= seq![SEMI]);
    let m = match_token(s, q1, &semi, true);
    if !m.0 {
        return Err(Error::BadSourceCode("Unable to match suffix on doc block or marker.".to_owned()));
    }
    let le = match detect_line_ending(s, m.1) {
        None => {
            return Err(Error::BadSourceCode("Expected CR or LF".to_owned()));
        },
        Some(le) => le,
    };
    let end = m.1 + ending_len(le);
    let val = &s[vs..ve];
    let mut text: Vec<u8> = Vec::new();
    if val.len() == 0 {
        let empty: [u8; 0] = [];
        render_comment_text(&mut text, indent, &empty, le);
    } else {
        let c = match parse_str_lit(val) {
            Err(msg) => {
                return Err(Error::BadSourceCode(msg));
            },
            Ok(c) => c,
        };
        render_comment_text(&mut text, indent, c.as_slice(), le);
    }
    Ok(MarkerOutcome::Hit { start: i - indent, end, text })
}

/// Exec mirror of [`doc_tail`].
fn finish_doc(s: &[u8], i: usize, indent: usize, vs: usize, ve: usize, q0: usize) -> (r: Result<
    MarkerOutcome,
    Error,
>)
    requires
        indent <= i,
        i < q0 <= s@.len(),
        vs <= ve <= s@.len(),
    ensures
        reflects(
            doc_tail(s@, i as int, indent as int, s@.subrange(vs as int, ve as int), q0 as int),
            r,
        ),
        outcome_bounded(r, s@, i as int, indent as int),
{
    let n = s.len();
    assert(n == s@.len());
    let rbracket: [u8; 1] = [RBRACKET];
    assert(rbracket@ =~= seq![RBRACKET]);
    let m = match_token(s, q0, &rbracket, true);
    if !m.0 {
        return Err(Error::BadSourceCode("Unable to match suffix on doc block or marker.".to_owned()));
    }
    let le = match detect_line_ending(s, m.1) {
        None => {
            return Err(Error::BadSourceCode("Expected CR or LF".to_owned()));
        },
        Some(le) => le,
    };
    let end = m.1 + ending_len(le);
    let val = &s[vs..ve];
    let mut text: Vec<u8> = Vec::new();
    if val.len() == 0 {
        let empty: [u8; 0] = [];
        render_doc_text(&mut text, indent, &empty, le);
    } else {
        let c = match parse_str_lit(val) {
            Err(msg) => {
                return Err(Error::BadSourceCode(msg));
            },
            Ok(c) => c,
        };
        render_doc_text(&mut text, indent, c.as_slice(), le);
    }
    Ok(MarkerOutcome::Hit { start: i - indent, end, text })
}

/// Exec mirror of [`comment_attempt`].
pub fn match_comment_marker(s: &[u8], i: usize, indent: usize) -> (r: Result<MarkerOutcome, Error>)
    requires
        indent <= i,
        i + 2 <= s@.len(),
    ensures
        reflects(comment_attempt(s@, i as int, indent as int), r),
        outcome_bounded(r, s@, i as int, indent as int),
{
    let n = s.len();
    assert(n == s@.len());
    let omment: [u8; 7] = [111, 109, 109, 101, 110, 116, 95];
    assert(omment@ =~= tok_omment());
    let m1 = match_token(s, i + 2, &omment, false);
    if !m1.0 {
        return Ok(MarkerOutcome::Miss { resume: m1.1 });
    }
    let bang: [u8; 1] = [BANG];
    assert(bang@ =~= seq![BANG]);
    let m2 = match_token(s, m1.1, &bang, true);
    if !m2.0 {
        return Ok(MarkerOutcome::Miss { resume: m2.1 });
    }
    let lparen: [u8; 1] = [LPAREN];
    assert(lparen@ =~= seq![LPAREN]);
    let m3 = match_token(s, m2.1, &lparen, true);
    if !m3.0 {
        return Ok(MarkerOutcome::Miss { resume: m3.1 });
    }
    let vs = m3.1;
    let p = skip_ws_from(s, vs);
    if p >= s.len() {
        return Err(Error::BadSourceCode("Unexpected end of input".to_owned()));
    }
    if s[p] == RPAREN {
        finish_comment(s, i, indent, vs, p, p + 1, false)
    } else if s[p] == QUOTE {
        let ve = skip_string(s, p + 1);
        finish_comment(s, i, indent, vs, ve, ve, true)
    } else if s[p] == LOWER_R {
        let (ok, k) = raw_string_entry(s, p + 1);
        if !ok {
            return Err(Error::BadSourceCode("Bad raw string".to_owned()));
        }
        let ve = skip_raw_body(s, p + 2 + k, k);
        finish_comment(s, i, indent, vs, ve, ve, true)
    } else {
        Err(Error::BadSourceCode("Expected ')' or string".to_owned()))
    }
}

/// Exec mirror of [`doc_attempt`].
pub fn match_doc_block(s: &[u8], i: usize, indent: usize) -> (r: Result<MarkerOutcome, Error>)
    requires
        indent <= i,
        i + 1 <= s@.len(),
    ensures
        reflects(doc_attempt(s@, i as int, indent as int), r),
        outcome_bounded(r, s@, i as int, indent as int),
{
    let n = s.len();
    assert(n == s@.len());
    let lbracket: [u8; 1] = [LBRACKET];
    assert(lbracket@ =~= seq![LBRACKET]);
    let m1 = match_token(s, i + 1, &lbracket, true);
    if !m1.0 {
        return Ok(MarkerOutcome::Miss { resume: m1.1 });
    }
    let doc: [u8; 3] = [100, 111, 99];
    assert(doc@ =~= tok_doc());
    let m2 = match_token(s, m1.1, &doc, true);
    if !m2.0 {
        return Ok(MarkerOutcome::Miss { resume: m2.1 });
    }
    let equals: [u8; 1] = [EQUALS];
    assert(equals@ =~= seq![EQUALS]);
    let m3 = match_token(s, m2.1, &equals, true);
    if !m3.0 {
        return Ok(MarkerOutcome::Miss { resume: m3.1 });
    }
    let vs = m3.1;
    let p = skip_ws_from(s, vs);
    if p >= s.len() {
        return Err(Error::BadSourceCode("Unexpected end of input".to_owned()));
    }
    if s[p] == QUOTE {
        let ve = skip_string(s, p + 1);
        finish_doc(s, i, indent, vs, ve, ve)
    } else if s[p] == LOWER_R {
        let (ok, k) = raw_string_entry(s, p + 1);
        if !ok {
            return Err(Error::BadSourceCode("Bad raw string".to_owned()));
        }
        let ve = skip_raw_body(s, p + 2 + k, k);
        finish_doc(s, i, indent, vs, ve, ve)
    } else {
        Err(Error::BadSourceCode("Expected string".to_owned()))
    }
}

} // verus!
