//! Laws of the scanner, stated and proved over the spec functions the
//! public contracts use.

use vstd::prelude::*;

use crate::literals::{int_lit_value, str_lit_value};
use crate::markers::{
    blank_attempt, comment_attempt, doc_attempt, ending_at, tok_doc, tok_lank, tok_omment,
    MarkerHit,
};
use crate::render::{
    blank_text, comment_body, comment_line, comment_text, doc_body, doc_line, doc_text, le_bytes,
    le_len, payload_line, LineEnding,
};
use crate::replace::{flushed, scan, scan_after, scan_text, step, ScanOutcome};
use crate::scan::{
    block_comment_end, find_byte, line_comment_end, lit_match, pad_run, pads_match,
    raw_body_end, raw_entry_ok, string_end, token_match, BACKSLASH, BANG, CR, LF, LOWER_B, LPAREN,
    EQUALS, LBRACKET, LOWER_C, LOWER_R, POUND, QUOTE, RBRACKET, RPAREN, SEMI, SLASH, SPACE,
    STAR, UNDERSCORE,
};

verus! {

/// A line comment body free of line feeds is consumed whole: the comment
/// runs on past every byte of `i..j`.
proof fn lemma_line_comment_skips(s: Seq<u8>, i: int, j: int)
    requires
        0 <= i <= j <= s.len(),
        forall|k: int| i <= k < j ==> s[k] != LF,
    ensures
        line_comment_end(s, i) == line_comment_end(s, j),
    decreases j - i,
{
    if i < j {
        lemma_line_comment_skips(s, i + 1, j);
    }
}

/// A string body free of quotes and backslashes is consumed whole.
proof fn lemma_string_skips(s: Seq<u8>, i: int, j: int)
    requires
        0 <= i <= j <= s.len(),
        forall|k: int| i <= k < j ==> s[k] != QUOTE && s[k] != BACKSLASH,
    ensures
        string_end(s, i, false) == string_end(s, j, false),
    decreases j - i,
{
    if i < j {
        lemma_string_skips(s, i + 1, j);
    }
}

/// A two-byte window that opens or closes a block comment.
pub open spec fn comment_window(s: Seq<u8>, k: int) -> bool {
    k + 1 < s.len() && ((s[k] == STAR && s[k + 1] == SLASH) || (s[k] == SLASH && s[k + 1] == STAR))
}

/// A block comment body free of opening and closing windows is consumed
/// whole, at any nesting depth.
proof fn lemma_block_comment_skips(s: Seq<u8>, i: int, j: int, depth: int)
    requires
        0 <= i <= j <= s.len(),
        forall|k: int| i <= k < j ==> !comment_window(s, k),
    ensures
        block_comment_end(s, i, depth) == block_comment_end(s, j, depth),
    decreases j - i,
{
    if i < j {
        assert(!comment_window(s, i));
        lemma_block_comment_skips(s, i + 1, j, depth);
    }
}

/// A raw string body with no closing fence run is consumed whole.
proof fn lemma_raw_body_skips(s: Seq<u8>, i: int, j: int, p: int)
    requires
        0 <= i <= j <= s.len(),
        forall|k: int| i <= k < j ==> !(s[k] == QUOTE && pads_match(s, k + 1, p)),
    ensures
        raw_body_end(s, i, p) == raw_body_end(s, j, p),
    decreases j - i,
{
    if i < j {
        lemma_raw_body_skips(s, i + 1, j, p);
    }
}

/// Searching for a byte passes over every position that does not hold it.
proof fn lemma_find_byte_skips(s: Seq<u8>, i: int, j: int, b: u8)
    requires
        0 <= i <= j <= s.len(),
        forall|k: int| i <= k < j ==> s[k] != b,
    ensures
        find_byte(s, i, b) == find_byte(s, j, b),
    decreases j - i,
{
    if i < j {
        lemma_find_byte_skips(s, i + 1, j, b);
    }
}

/// A run of exactly `p` fence bytes counts as `p`.
proof fn lemma_pad_run_value(s: Seq<u8>, i: int, p: int)
    requires
        0 <= i,
        0 <= p,
        i + p <= s.len(),
        forall|k: int| i <= k < i + p ==> s[k] == POUND,
        i + p == s.len() || s[i + p] != POUND,
    ensures
        pad_run(s, i) == p,
    decreases p,
{
    if p > 0 {
        lemma_pad_run_value(s, i + 1, p - 1);
    }
}

/// A token whose bytes stand literally at `i` matches there.
proof fn lemma_lit_match_exact(s: Seq<u8>, i: int, tok: Seq<u8>)
    requires
        0 <= i,
        i + tok.len() <= s.len(),
        forall|k: int| 0 <= k < tok.len() ==> s[i + k] == tok[k],
    ensures
        lit_match(s, i, tok) == (true, i + tok.len()),
    decreases tok.len(),
{
    if tok.len() > 0 {
        assert(s[i] == tok[0]);
        assert(forall|k: int|
            0 <= k < tok.skip(1).len() ==> s[i + 1 + k] == tok.skip(1)[k]);
        lemma_lit_match_exact(s, i + 1, tok.skip(1));
    }
}

/// A nonempty token whose bytes stand literally at `i` is matched whole by
/// the whitespace-tolerant matcher.
proof fn lemma_token_match_exact(s: Seq<u8>, i: int, tok: Seq<u8>, allow_ws: bool)
    requires
        0 <= i,
        tok.len() > 0,
        i + tok.len() <= s.len(),
        forall|k: int| 0 <= k < tok.len() ==> s[i + k] == tok[k],
    ensures
        token_match(s, i, tok, allow_ws) == (true, i + tok.len()),
{
    assert(s[i] == tok[0]);
    assert(forall|k: int| 0 <= k < tok.skip(1).len() ==> s[i + 1 + k] == tok.skip(1)[k]);
    lemma_lit_match_exact(s, i + 1, tok.skip(1));
}

/// A scan that reports nothing changed returns the input itself: the
/// "unchanged" outcome is the input, byte for byte.
pub proof fn lemma_unchanged_is_input(s: Seq<u8>, doc: bool, out: Seq<u8>)
    requires
        scan_text(s, doc) == (ScanOutcome::Complete { out, changed: false }),
    ensures
        out == s,
{
    lemma_scan_unchanged(s, doc, 0, 0, 0, Seq::empty(), out);
}

/// Helper for [`lemma_unchanged_is_input`]: from a state whose copy mark is
/// still zero, a completed scan that reports no change returns the input;
/// once the mark has moved, a completed scan always reports a change.
#[verifier::rlimit(30)]
proof fn lemma_scan_unchanged(s: Seq<u8>, doc: bool, i: int, indent: int, mark: int, outb: Seq<u8>, out: Seq<u8>)
    requires
        scan(s, doc, i, indent, mark, outb) == (ScanOutcome::Complete { out, changed: false }),
    ensures
        mark <= 0,
        out == s,
    decreases s.len() - i, 1int,
{
    if i < 0 || i >= s.len() {
    } else if s[i] == crate::scan::LOWER_R {
        if crate::scan::raw_entry_ok(s, i + 1) {
            lemma_scan_unchanged(
                s,
                doc,
                crate::replace::step(
                    i,
                    s.len() as int,
                    crate::scan::raw_body_end(
                        s,
                        i + 2 + crate::scan::pad_run(s, i + 1),
                        crate::scan::pad_run(s, i + 1),
                    ),
                ),
                0,
                mark,
                outb,
                out,
            );
        } else {
            lemma_scan_unchanged(
                s,
                doc,
                crate::replace::step(i, s.len() as int, i + 1 + crate::scan::pad_run(s, i + 1)),
                0,
                mark,
                outb,
                out,
            );
        }
    } else if s[i] == crate::scan::QUOTE {
        lemma_scan_unchanged(
            s,
            doc,
            crate::replace::step(i, s.len() as int, crate::scan::string_end(s, i + 1, false)),
            0,
            mark,
            outb,
            out,
        );
    } else if s[i] == crate::scan::SLASH {
        if i + 1 >= s.len() {
        } else if s[i + 1] == crate::scan::SLASH {
            lemma_scan_unchanged(
                s,
                doc,
                crate::replace::step(i, s.len() as int, crate::scan::line_comment_end(s, i + 2)),
                0,
                mark,
                outb,
                out,
            );
        } else if s[i + 1] == crate::scan::STAR {
            lemma_scan_unchanged(
                s,
                doc,
                crate::replace::step(
                    i,
                    s.len() as int,
                    crate::scan::block_comment_end(s, i + 2, 1),
                ),
                0,
                mark,
                outb,
                out,
            );
        } else {
            lemma_scan_unchanged(s, doc, i + 1, 0, mark, outb, out);
        }
    } else if s[i] == crate::scan::UNDERSCORE {
        if i + 1 >= s.len() {
        } else if s[i + 1] == crate::scan::LOWER_B {
            lemma_scan_after_unchanged(
                s,
                doc,
                i,
                crate::markers::blank_attempt(s, i, indent),
                mark,
                outb,
                out,
            );
        } else if s[i + 1] == crate::scan::LOWER_C {
            lemma_scan_after_unchanged(
                s,
                doc,
                i,
                crate::markers::comment_attempt(s, i, indent),
                mark,
                outb,
                out,
            );
        } else {
            lemma_scan_unchanged(s, doc, i + 1, 0, mark, outb, out);
        }
    } else if s[i] == crate::scan::POUND && doc {
        lemma_scan_after_unchanged(
            s,
            doc,
            i,
            crate::markers::doc_attempt(s, i, indent),
            mark,
            outb,
            out,
        );
    } else if s[i] == crate::scan::SPACE {
        lemma_scan_unchanged(s, doc, i + 1, indent + 1, mark, outb, out);
    } else {
        lemma_scan_unchanged(s, doc, i + 1, 0, mark, outb, out);
    }
}

/// Helper for [`lemma_scan_unchanged`], covering the state after a marker
/// attempt: a hit moves the mark strictly past zero, so a completed scan
/// that reports no change can only follow a miss.
#[verifier::rlimit(30)]
proof fn lemma_scan_after_unchanged(
    s: Seq<u8>,
    doc: bool,
    i: int,
    a: crate::markers::MarkerHit,
    mark: int,
    outb: Seq<u8>,
    out: Seq<u8>,
)
    requires
        0 <= i,
        crate::replace::scan_after(s, doc, i, a, mark, outb) == (ScanOutcome::Complete {
            out,
            changed: false,
        }),
    ensures
        mark <= 0,
        out == s,
    decreases s.len() - i, 0int,
{
    if i >= s.len() {
    } else {
        match a {
            crate::markers::MarkerHit::Miss(j) => {
                lemma_scan_unchanged(
                    s,
                    doc,
                    crate::replace::step(i, s.len() as int, j),
                    0,
                    mark,
                    outb,
                    out,
                );
            },
            crate::markers::MarkerHit::Bad => {
            },
            crate::markers::MarkerHit::Hit { start, end, text } => {
                let ni = crate::replace::step(i, s.len() as int, end);
                lemma_scan_mark_changed(
                    s,
                    doc,
                    ni,
                    0,
                    ni,
                    crate::replace::flushed(s, outb, mark, start) + text,
                );
            },
        }
    }
}

/// Once the copy mark has moved past zero it never returns, so a completed
/// scan from such a state always reports a change.
#[verifier::rlimit(30)]
proof fn lemma_scan_mark_changed(s: Seq<u8>, doc: bool, i: int, indent: int, mark: int, outb: Seq<u8>)
    requires
        mark > 0,
    ensures
        !(scan(s, doc, i, indent, mark, outb) matches ScanOutcome::Complete { changed: false, .. }),
    decreases s.len() - i, 1int,
{
    if i < 0 || i >= s.len() {
    } else if s[i] == crate::scan::LOWER_R {
        if crate::scan::raw_entry_ok(s, i + 1) {
            lemma_scan_mark_changed(
                s,
                doc,
                crate::replace::step(
                    i,
                    s.len() as int,
                    crate::scan::raw_body_end(
                        s,
                        i + 2 + crate::scan::pad_run(s, i + 1),
                        crate::scan::pad_run(s, i + 1),
                    ),
                ),
                0,
                mark,
                outb,
            );
        } else {
            lemma_scan_mark_changed(
                s,
                doc,
                crate::replace::step(i, s.len() as int, i + 1 + crate::scan::pad_run(s, i + 1)),
                0,
                mark,
                outb,
            );
        }
    } else if s[i] == crate::scan::QUOTE {
        lemma_scan_mark_changed(
            s,
            doc,
            crate::replace::step(i, s.len() as int, crate::scan::string_end(s, i + 1, false)),
            0,
            mark,
            outb,
        );
    } else if s[i] == crate::scan::SLASH {
        if i + 1 >= s.len() {
        } else if s[i + 1] == crate::scan::SLASH {
            lemma_scan_mark_changed(
                s,
                doc,
                crate::replace::step(i, s.len() as int, crate::scan::line_comment_end(s, i + 2)),
                0,
                mark,
                outb,
            );
        } else if s[i + 1] == crate::scan::STAR {
            lemma_scan_mark_changed(
                s,
                doc,
                crate::replace::step(
                    i,
                    s.len() as int,
                    crate::scan::block_comment_end(s, i + 2, 1),
                ),
                0,
                mark,
                outb,
            );
        } else {
            lemma_scan_mark_changed(s, doc, i + 1, 0, mark, outb);
        }
    } else if s[i] == crate::scan::UNDERSCORE {
        if i + 1 >= s.len() {
        } else if s[i + 1] == crate::scan::LOWER_B {
            lemma_scan_after_mark_changed(
                s,
                doc,
                i,
                crate::markers::blank_attempt(s, i, indent),
                mark,
                outb,
            );
        } else if s[i + 1] == crate::scan::LOWER_C {
            lemma_scan_after_mark_changed(
                s,
                doc,
                i,
                crate::markers::comment_attempt(s, i, indent),
                mark,
                outb,
            );
        } else {
            lemma_scan_mark_changed(s, doc, i + 1, 0, mark, outb);
        }
    } else if s[i] == crate::scan::POUND && doc {
        lemma_scan_after_mark_changed(
            s,
            doc,
            i,
            crate::markers::doc_attempt(s, i, indent),
            mark,
            outb,
        );
    } else if s[i] == crate::scan::SPACE {
        lemma_scan_mark_changed(s, doc, i + 1, indent + 1, mark, outb);
    } else {
        lemma_scan_mark_changed(s, doc, i + 1, 0, mark, outb);
    }
}

/// Helper for [`lemma_scan_mark_changed`], covering the state after a
/// marker attempt.
#[verifier::rlimit(30)]
proof fn lemma_scan_after_mark_changed(
    s: Seq<u8>,
    doc: bool,
    i: int,
    a: crate::markers::MarkerHit,
    mark: int,
    outb: Seq<u8>,
)
    requires
        0 <= i,
        mark > 0,
    ensures
        !(crate::replace::scan_after(s, doc, i, a, mark, outb) matches ScanOutcome::Complete {
            changed: false,
            ..
        }),
    decreases s.len() - i, 0int,
{
    if i >= s.len() {
    } else {
        match a {
            crate::markers::MarkerHit::Miss(j) => {
                lemma_scan_mark_changed(
                    s,
                    doc,
                    crate::replace::step(i, s.len() as int, j),
                    0,
                    mark,
                    outb,
                );
            },
            crate::markers::MarkerHit::Bad => {
            },
            crate::markers::MarkerHit::Hit { start, end, text } => {
                let ni = crate::replace::step(i, s.len() as int, end);
                lemma_scan_mark_changed(
                    s,
                    doc,
                    ni,
                    0,
                    ni,
                    crate::replace::flushed(s, outb, mark, start) + text,
                );
            },
        }
    }
}

/// Marker-shaped text inside a line comment is never replaced: an input
/// that is one line comment, whatever its body holds, round-trips
/// unchanged.
pub proof fn lemma_line_comment_immune(s: Seq<u8>, doc: bool)
    requires
        s.len() >= 3,
        s[0] == SLASH,
        s[1] == SLASH,
        s[s.len() - 1] == LF,
        forall|k: int| 2 <= k < s.len() - 1 ==> s[k] != LF,
    ensures
        scan_text(s, doc) == (ScanOutcome::Complete { out: s, changed: false }),
{
    let len = s.len() as int;
    lemma_line_comment_skips(s, 2, len - 1);
    assert(line_comment_end(s, len - 1) == len);
    assert(scan_text(s, doc) == scan(s, doc, step(0, len, line_comment_end(s, 2)), 0, 0, Seq::empty()));
    assert(scan(s, doc, len, 0, 0, Seq::empty()) == (ScanOutcome::Complete { out: s, changed: false }));
}

/// Marker-shaped text inside a block comment is never replaced: an input
/// that is one block comment whose body holds no nested opener or closer
/// round-trips unchanged.
pub proof fn lemma_block_comment_immune(s: Seq<u8>, doc: bool)
    requires
        s.len() >= 4,
        s[0] == SLASH,
        s[1] == STAR,
        s[s.len() - 2] == STAR,
        s[s.len() - 1] == SLASH,
        forall|k: int| 2 <= k < s.len() - 2 ==> !comment_window(s, k),
    ensures
        scan_text(s, doc) == (ScanOutcome::Complete { out: s, changed: false }),
{
    let len = s.len() as int;
    lemma_block_comment_skips(s, 2, len - 2, 1);
    assert(block_comment_end(s, len - 2, 1) == len);
    assert(scan_text(s, doc) == scan(s, doc, step(0, len, block_comment_end(s, 2, 1)), 0, 0, Seq::empty()));
    assert(scan(s, doc, len, 0, 0, Seq::empty()) == (ScanOutcome::Complete { out: s, changed: false }));
}

/// Marker-shaped text inside a nested block comment is never replaced: an
/// input that is one block comment holding one inner block comment, the
/// three stretches between the delimiters free of further openers and
/// closers, round-trips unchanged. `o` and `c` are the indices of the inner
/// comment's opener and closer.
pub proof fn lemma_nested_block_comment_immune(s: Seq<u8>, doc: bool, o: int, c: int)
    requires
        s.len() >= 8,
        s[0] == SLASH,
        s[1] == STAR,
        2 <= o,
        o + 2 <= c,
        c + 2 <= s.len() - 2,
        s[o] == SLASH,
        s[o + 1] == STAR,
        s[c] == STAR,
        s[c + 1] == SLASH,
        s[s.len() - 2] == STAR,
        s[s.len() - 1] == SLASH,
        forall|k: int| 2 <= k < o ==> !comment_window(s, k),
        forall|k: int| o + 2 <= k < c ==> !comment_window(s, k),
        forall|k: int| c + 2 <= k < s.len() - 2 ==> !comment_window(s, k),
    ensures
        scan_text(s, doc) == (ScanOutcome::Complete { out: s, changed: false }),
{
    let len = s.len() as int;
    lemma_block_comment_skips(s, 2, o, 1);
    assert(block_comment_end(s, o, 1) == block_comment_end(s, o + 2, 2));
    lemma_block_comment_skips(s, o + 2, c, 2);
    assert(block_comment_end(s, c, 2) == block_comment_end(s, c + 2, 1));
    lemma_block_comment_skips(s, c + 2, len - 2, 1);
    assert(block_comment_end(s, len - 2, 1) == len);
    assert(scan_text(s, doc) == scan(s, doc, step(0, len, block_comment_end(s, 2, 1)), 0, 0, Seq::empty()));
    assert(scan(s, doc, len, 0, 0, Seq::empty()) == (ScanOutcome::Complete { out: s, changed: false }));
}

/// Marker-shaped text inside a quoted string is never replaced: an input
/// that is one string literal whose body holds no quote and no backslash
/// round-trips unchanged.
pub proof fn lemma_string_immune(s: Seq<u8>, doc: bool)
    requires
        s.len() >= 2,
        s[0] == QUOTE,
        s[s.len() - 1] == QUOTE,
        forall|k: int| 1 <= k < s.len() - 1 ==> s[k] != QUOTE && s[k] != BACKSLASH,
    ensures
        scan_text(s, doc) == (ScanOutcome::Complete { out: s, changed: false }),
{
    let len = s.len() as int;
    lemma_string_skips(s, 1, len - 1);
    assert(string_end(s, len - 1, false) == len);
    assert(scan_text(s, doc) == scan(s, doc, step(0, len, string_end(s, 1, false)), 0, 0, Seq::empty()));
    assert(scan(s, doc, len, 0, 0, Seq::empty()) == (ScanOutcome::Complete { out: s, changed: false }));
}

/// Raw-string fence balance: an input that is one raw string opened with
/// `p` fences, whose body holds no quote followed by `p` fence bytes, ends
/// only at its matching close and round-trips unchanged -- a close
/// candidate with fewer fences inside the body does not terminate it.
pub proof fn lemma_raw_string_immune(s: Seq<u8>, doc: bool, p: int)
    requires
        0 <= p,
        s.len() >= 2 * p + 3,
        s[0] == crate::scan::LOWER_R,
        forall|k: int| 1 <= k < 1 + p ==> s[k] == POUND,
        s[1 + p] == QUOTE,
        s[s.len() - 1 - p] == QUOTE,
        forall|k: int| s.len() - p <= k < s.len() ==> s[k] == POUND,
        forall|k: int| 2 + p <= k < s.len() - 1 - p ==> !(s[k] == QUOTE && pads_match(s, k + 1, p)),
    ensures
        scan_text(s, doc) == (ScanOutcome::Complete { out: s, changed: false }),
{
    let len = s.len() as int;
    lemma_pad_run_value(s, 1, p);
    assert(raw_entry_ok(s, 1));
    lemma_raw_body_skips(s, 2 + p, len - 1 - p, p);
    assert(pads_match(s, len - p, p));
    assert(raw_body_end(s, len - 1 - p, p) == len);
    assert(scan_text(s, doc) == scan(s, doc, step(0, len, raw_body_end(s, 2 + p, p)), 0, 0, Seq::empty()));
    assert(scan(s, doc, len, 0, 0, Seq::empty()) == (ScanOutcome::Complete { out: s, changed: false }));
}


/// The opening bytes of a blank marker, `_blank_!(`.
pub open spec fn blank_prefix() -> Seq<u8> {
    seq![UNDERSCORE, LOWER_B, 108u8, 97u8, 110u8, 107u8, 95u8, BANG, LPAREN]
}

/// A whole blank marker line: `_blank_!(`, the payload `v`, `);` and the
/// line ending.
pub open spec fn blank_marker_text(v: Seq<u8>, le: LineEnding) -> Seq<u8> {
    blank_prefix() + v + seq![RPAREN, SEMI] + le_bytes(le)
}

/// Blank count fidelity: an input that is one blank marker with payload `v`
/// is replaced by exactly the payload's count of line endings, each the
/// ending that followed the marker -- one when the payload is absent -- and
/// a payload that is no integer literal is an error.
#[verifier::rlimit(100)]
#[verifier::spinoff_prover]
pub proof fn lemma_blank_marker(v: Seq<u8>, le: LineEnding, doc: bool)
    requires
        forall|k: int| 0 <= k < v.len() ==> v[k] != RPAREN,
    ensures
        v.len() == 0 ==> scan_text(blank_marker_text(v, le), doc) == (ScanOutcome::Complete {
            out: le_bytes(le),
            changed: true,
        }),
        v.len() > 0 && int_lit_value(v) is Some ==> scan_text(blank_marker_text(v, le), doc)
            == (ScanOutcome::Complete {
            out: blank_text(int_lit_value(v).unwrap() as int, le),
            changed: true,
        }),
        v.len() > 0 && int_lit_value(v) is None ==> scan_text(blank_marker_text(v, le), doc)
            == ScanOutcome::Malformed,
{
    let s = blank_marker_text(v, le);
    let len = s.len() as int;
    let vl = v.len() as int;
    assert(len == 11 + vl + le_len(le));
    assert(s[0] == UNDERSCORE && s[1] == LOWER_B);
    assert(forall|k: int| 0 <= k < 5 ==> s[2 + k] == tok_lank()[k]);
    lemma_token_match_exact(s, 2, tok_lank(), false);
    assert(s[7] == BANG);
    lemma_token_match_exact(s, 7, seq![BANG], true);
    assert(s[8] == LPAREN);
    lemma_token_match_exact(s, 8, seq![LPAREN], true);
    assert(forall|k: int| 9 <= k < 9 + vl ==> s[k] == v[k - 9]);
    lemma_find_byte_skips(s, 9, 9 + vl, RPAREN);
    assert(s[9 + vl] == RPAREN);
    assert(find_byte(s, 9 + vl, RPAREN) == 9 + vl);
    let cp = 9 + vl;
    assert(s[cp + 1] == SEMI);
    lemma_token_match_exact(s, cp + 1, seq![SEMI], true);
    assert(s[cp + 2] == le_bytes(le)[0]);
    match le {
        LineEnding::Lf => {
            assert(s[cp + 2] == LF);
            assert(ending_at(s, cp + 2) == Some(le));
        },
        LineEnding::CrLf => {
            assert(s[cp + 2] == CR && s[cp + 3] == LF);
            assert(ending_at(s, cp + 2) == Some(le));
        },
    }
    assert(cp + 2 + le_len(le) == len);
    assert(s.subrange(9, cp) =~= v);
    let a = blank_attempt(s, 0, 0);
    assert(scan_text(s, doc) == scan_after(s, doc, 0, a, 0, Seq::empty()));
    if v.len() > 0 && int_lit_value(v) is None {
        assert(a == MarkerHit::Bad);
    } else {
        let text = if v.len() == 0 {
            le_bytes(le)
        } else {
            blank_text(int_lit_value(v).unwrap() as int, le)
        };
        assert(a == (MarkerHit::Hit { start: 0, end: len, text }));
        assert(step(0, len, len) == len);
        assert(flushed(s, Seq::empty(), 0, 0) + text =~= text);
        assert(scan_after(s, doc, 0, a, 0, Seq::empty()) == scan(s, doc, len, 0, len, text));
        assert(text + s.subrange(len, len) =~= text);
        assert(scan(s, doc, len, 0, len, text) == (ScanOutcome::Complete {
            out: text,
            changed: true,
        }));
    }
}

/// Unterminated marker: a blank marker opened with `_blank_!(` whose
/// closing parenthesis never comes is an error, not a silent truncation.
#[verifier::rlimit(60)]
pub proof fn lemma_unterminated_blank_marker(t: Seq<u8>, doc: bool)
    requires
        forall|k: int| 0 <= k < t.len() ==> t[k] != RPAREN,
    ensures
        scan_text(blank_prefix() + t, doc) == ScanOutcome::Malformed,
{
    let s = blank_prefix() + t;
    let len = s.len() as int;
    assert(s[0] == UNDERSCORE && s[1] == LOWER_B);
    assert(forall|k: int| 0 <= k < 5 ==> s[2 + k] == tok_lank()[k]);
    lemma_token_match_exact(s, 2, tok_lank(), false);
    assert(s[7] == BANG);
    lemma_token_match_exact(s, 7, seq![BANG], true);
    assert(s[8] == LPAREN);
    lemma_token_match_exact(s, 8, seq![LPAREN], true);
    assert(forall|k: int| 9 <= k < len ==> s[k] == t[k - 9]);
    lemma_find_byte_skips(s, 9, len, RPAREN);
    assert(find_byte(s, len, RPAREN) == len);
    let a = blank_attempt(s, 0, 0);
    assert(a == MarkerHit::Bad);
    assert(scan_text(s, doc) == scan_after(s, doc, 0, a, 0, Seq::empty()));
}


/// The string body starting at `i` reaches an unescaped closing quote
/// before the end of `t`.
pub open spec fn string_closes(t: Seq<u8>, i: int, esc: bool) -> bool
    decreases t.len() - i,
{
    if i < 0 || i >= t.len() {
        false
    } else if t[i] == QUOTE && !esc {
        true
    } else if t[i] == BACKSLASH && !esc {
        string_closes(t, i + 1, true)
    } else {
        string_closes(t, i + 1, false)
    }
}

/// A string literal that closes within `t` is consumed the same way when
/// `t` stands embedded at offset `off` of a larger text.
proof fn lemma_string_end_embed(s: Seq<u8>, off: int, t: Seq<u8>, i: int, esc: bool)
    requires
        0 <= off,
        off + t.len() <= s.len(),
        forall|k: int| 0 <= k < t.len() ==> s[off + k] == t[k],
        0 <= i,
        string_closes(t, i, esc),
    ensures
        string_end(s, off + i, esc) == off + string_end(t, i, esc),
    decreases t.len() - i,
{
    assert(s[off + i] == t[i]);
    if t[i] == QUOTE && !esc {
    } else if t[i] == BACKSLASH && !esc {
        lemma_string_end_embed(s, off, t, i + 1, true);
    } else {
        lemma_string_end_embed(s, off, t, i + 1, false);
    }
}

/// The opening bytes of a comment marker, `_comment_!(`.
pub open spec fn comment_prefix() -> Seq<u8> {
    seq![UNDERSCORE, LOWER_C, 111u8, 109u8, 109u8, 101u8, 110u8, 116u8, 95u8, BANG, LPAREN]
}

/// A whole comment marker line: `_comment_!(`, the quoted literal `lit`,
/// `);` and the line ending.
pub open spec fn comment_marker_text(lit: Seq<u8>, le: LineEnding) -> Seq<u8> {
    comment_prefix() + lit + seq![RPAREN, SEMI] + le_bytes(le)
}

/// Comment line-splitting: an input that is one comment marker holding a
/// plain string literal is replaced by one comment line per line of the
/// decoded payload, each ending with the line ending that followed the
/// marker; a literal that does not parse is an error.
#[verifier::rlimit(100)]
#[verifier::spinoff_prover]
pub proof fn lemma_comment_marker(lit: Seq<u8>, le: LineEnding, doc: bool)
    requires
        lit.len() >= 2,
        lit[0] == QUOTE,
        string_closes(lit, 1, false),
        string_end(lit, 1, false) == lit.len(),
    ensures
        str_lit_value(lit) is Some ==> scan_text(comment_marker_text(lit, le), doc)
            == (ScanOutcome::Complete {
            out: comment_text(0, str_lit_value(lit).unwrap(), le),
            changed: true,
        }),
        str_lit_value(lit) is None ==> scan_text(comment_marker_text(lit, le), doc)
            == ScanOutcome::Malformed,
{
    let s = comment_marker_text(lit, le);
    let len = s.len() as int;
    let ll = lit.len() as int;
    assert(len == 13 + ll + le_len(le));
    assert(s[0] == UNDERSCORE && s[1] == LOWER_C);
    assert(forall|k: int| 0 <= k < 7 ==> s[2 + k] == tok_omment()[k]);
    lemma_token_match_exact(s, 2, tok_omment(), false);
    assert(s[9] == BANG);
    lemma_token_match_exact(s, 9, seq![BANG], true);
    assert(s[10] == LPAREN);
    lemma_token_match_exact(s, 10, seq![LPAREN], true);
    assert(s[11] == QUOTE);
    assert(crate::scan::skip_ws(s, 11) == 11);
    assert(forall|k: int| 0 <= k < ll ==> s[11 + k] == lit[k]);
    lemma_string_end_embed(s, 11, lit, 1, false);
    let ve = 11 + ll;
    assert(string_end(s, 12, false) == ve);
    assert(s[ve] == RPAREN);
    lemma_token_match_exact(s, ve, seq![RPAREN], true);
    assert(s[ve + 1] == SEMI);
    lemma_token_match_exact(s, ve + 1, seq![SEMI], true);
    match le {
        LineEnding::Lf => {
            assert(s[ve + 2] == LF);
            assert(ending_at(s, ve + 2) == Some(le));
        },
        LineEnding::CrLf => {
            assert(s[ve + 2] == CR && s[ve + 3] == LF);
            assert(ending_at(s, ve + 2) == Some(le));
        },
    }
    assert(ve + 2 + le_len(le) == len);
    assert(s.subrange(11, ve) =~= lit);
    let a = comment_attempt(s, 0, 0);
    assert(scan_text(s, doc) == scan_after(s, doc, 0, a, 0, Seq::empty()));
    if str_lit_value(lit) is None {
        assert(a == MarkerHit::Bad);
    } else {
        let text = comment_text(0, str_lit_value(lit).unwrap(), le);
        assert(a == (MarkerHit::Hit { start: 0, end: len, text }));
        assert(step(0, len, len) == len);
        assert(flushed(s, Seq::empty(), 0, 0) + text =~= text);
        assert(scan_after(s, doc, 0, a, 0, Seq::empty()) == scan(s, doc, len, 0, len, text));
        assert(text + s.subrange(len, len) =~= text);
        assert(scan(s, doc, len, 0, len, text) == (ScanOutcome::Complete {
            out: text,
            changed: true,
        }));
    }
}

/// The opening bytes of a doc block, `#[doc = `.
pub open spec fn doc_block_prefix() -> Seq<u8> {
    seq![POUND, LBRACKET, 100u8, 111u8, 99u8, SPACE, EQUALS, SPACE]
}

/// A whole doc block line: `#[doc = `, the quoted literal `lit`, `]` and
/// the line ending.
pub open spec fn doc_block_text(lit: Seq<u8>, le: LineEnding) -> Seq<u8> {
    doc_block_prefix() + lit + seq![RBRACKET] + le_bytes(le)
}

/// Doc-block gating, replacement off: when doc replacement is disabled, an
/// input that is one doc block is left untouched, byte for byte.
#[verifier::rlimit(60)]
pub proof fn lemma_doc_block_untouched(lit: Seq<u8>, le: LineEnding)
    requires
        lit.len() >= 2,
        lit[0] == QUOTE,
        string_closes(lit, 1, false),
        string_end(lit, 1, false) == lit.len(),
    ensures
        scan_text(doc_block_text(lit, le), false) == (ScanOutcome::Complete {
            out: doc_block_text(lit, le),
            changed: false,
        }),
{
    let s = doc_block_text(lit, le);
    let len = s.len() as int;
    let ll = lit.len() as int;
    assert(len == 9 + ll + le_len(le));
    let e = Seq::<u8>::empty();
    assert(s[0] == POUND && s[1] == LBRACKET && s[2] == 100 && s[3] == 111 && s[4] == 99);
    assert(s[5] == SPACE && s[6] == EQUALS && s[7] == SPACE && s[8] == QUOTE);
    assert(scan_text(s, false) == scan(s, false, 1, 0, 0, e));
    assert(scan(s, false, 1, 0, 0, e) == scan(s, false, 2, 0, 0, e));
    assert(scan(s, false, 2, 0, 0, e) == scan(s, false, 3, 0, 0, e));
    assert(scan(s, false, 3, 0, 0, e) == scan(s, false, 4, 0, 0, e));
    assert(scan(s, false, 4, 0, 0, e) == scan(s, false, 5, 0, 0, e));
    assert(scan(s, false, 5, 0, 0, e) == scan(s, false, 6, 1, 0, e));
    assert(scan(s, false, 6, 1, 0, e) == scan(s, false, 7, 0, 0, e));
    assert(scan(s, false, 7, 0, 0, e) == scan(s, false, 8, 1, 0, e));
    assert(forall|k: int| 0 <= k < ll ==> s[8 + k] == lit[k]);
    lemma_string_end_embed(s, 8, lit, 1, false);
    let ve = 8 + ll;
    assert(string_end(s, 9, false) == ve);
    assert(scan(s, false, 8, 1, 0, e) == scan(s, false, ve, 0, 0, e));
    assert(s[ve] == RBRACKET);
    assert(scan(s, false, ve, 0, 0, e) == scan(s, false, ve + 1, 0, 0, e));
    match le {
        LineEnding::Lf => {
            assert(s[ve + 1] == LF);
            assert(scan(s, false, ve + 1, 0, 0, e) == scan(s, false, ve + 2, 0, 0, e));
            assert(ve + 2 == len);
        },
        LineEnding::CrLf => {
            assert(s[ve + 1] == CR && s[ve + 2] == LF);
            assert(scan(s, false, ve + 1, 0, 0, e) == scan(s, false, ve + 2, 0, 0, e));
            assert(scan(s, false, ve + 2, 0, 0, e) == scan(s, false, ve + 3, 0, 0, e));
            assert(ve + 3 == len);
        },
    }
    assert(scan(s, false, len, 0, 0, e) == (ScanOutcome::Complete { out: s, changed: false }));
}

/// Doc-block gating, replacement on: when doc replacement is enabled, an
/// input that is one doc block is replaced by one doc line per line of the
/// decoded payload span (the bytes between the `=` and the `]`); a literal
/// that does not parse is an error.
#[verifier::rlimit(60)]
pub proof fn lemma_doc_block_replaced(lit: Seq<u8>, le: LineEnding)
    requires
        lit.len() >= 2,
        lit[0] == QUOTE,
        string_closes(lit, 1, false),
        string_end(lit, 1, false) == lit.len(),
    ensures
        str_lit_value(seq![SPACE] + lit) is Some ==> scan_text(doc_block_text(lit, le), true)
            == (ScanOutcome::Complete {
            out: doc_text(0, str_lit_value(seq![SPACE] + lit).unwrap(), le),
            changed: true,
        }),
        str_lit_value(seq![SPACE] + lit) is None ==> scan_text(doc_block_text(lit, le), true)
            == ScanOutcome::Malformed,
{
    let s = doc_block_text(lit, le);
    let len = s.len() as int;
    let ll = lit.len() as int;
    assert(len == 9 + ll + le_len(le));
    assert(s[0] == POUND && s[1] == LBRACKET && s[2] == 100 && s[3] == 111 && s[4] == 99);
    assert(s[5] == SPACE && s[6] == EQUALS && s[7] == SPACE && s[8] == QUOTE);
    lemma_token_match_exact(s, 1, seq![LBRACKET], true);
    assert(forall|k: int| 0 <= k < 3 ==> s[2 + k] == tok_doc()[k]);
    lemma_token_match_exact(s, 2, tok_doc(), true);
    assert(token_match(s, 5, seq![EQUALS], true) == token_match(s, 6, seq![EQUALS], true));
    lemma_token_match_exact(s, 6, seq![EQUALS], true);
    assert(crate::scan::skip_ws(s, 7) == crate::scan::skip_ws(s, 8));
    assert(crate::scan::skip_ws(s, 8) == 8);
    assert(forall|k: int| 0 <= k < ll ==> s[8 + k] == lit[k]);
    lemma_string_end_embed(s, 8, lit, 1, false);
    let ve = 8 + ll;
    assert(string_end(s, 9, false) == ve);
    assert(s[ve] == RBRACKET);
    lemma_token_match_exact(s, ve, seq![RBRACKET], true);
    match le {
        LineEnding::Lf => {
            assert(s[ve + 1] == LF);
            assert(ending_at(s, ve + 1) == Some(le));
        },
        LineEnding::CrLf => {
            assert(s[ve + 1] == CR && s[ve + 2] == LF);
            assert(ending_at(s, ve + 1) == Some(le));
        },
    }
    assert(ve + 1 + le_len(le) == len);
    assert(s.subrange(7, ve) =~= seq![SPACE] + lit);
    let a = doc_attempt(s, 0, 0);
    assert(scan_text(s, true) == scan_after(s, true, 0, a, 0, Seq::empty()));
    if str_lit_value(seq![SPACE] + lit) is None {
        assert(a == MarkerHit::Bad);
    } else {
        let text = doc_text(0, str_lit_value(seq![SPACE] + lit).unwrap(), le);
        assert(a == (MarkerHit::Hit { start: 0, end: len, text }));
        assert(step(0, len, len) == len);
        assert(flushed(s, Seq::empty(), 0, 0) + text =~= text);
        assert(scan_after(s, true, 0, a, 0, Seq::empty()) == scan(s, true, len, 0, len, text));
        assert(text + s.subrange(len, len) =~= text);
        assert(scan(s, true, len, 0, len, text) == (ScanOutcome::Complete {
            out: text,
            changed: true,
        }));
    }
}


/// Empty comment marker: an input that is `_comment_!();` and a line
/// ending is replaced by a single bare comment line.
#[verifier::rlimit(60)]
pub proof fn lemma_empty_comment_marker(le: LineEnding, doc: bool)
    ensures
        scan_text(comment_prefix() + seq![RPAREN, SEMI] + le_bytes(le), doc)
            == (ScanOutcome::Complete {
            out: comment_text(0, Seq::empty(), le),
            changed: true,
        }),
{
    let s = comment_prefix() + seq![RPAREN, SEMI] + le_bytes(le);
    let len = s.len() as int;
    assert(len == 13 + le_len(le));
    assert(s[0] == UNDERSCORE && s[1] == LOWER_C);
    assert(forall|k: int| 0 <= k < 7 ==> s[2 + k] == tok_omment()[k]);
    lemma_token_match_exact(s, 2, tok_omment(), false);
    assert(s[9] == BANG);
    lemma_token_match_exact(s, 9, seq![BANG], true);
    assert(s[10] == LPAREN);
    lemma_token_match_exact(s, 10, seq![LPAREN], true);
    assert(s[11] == RPAREN);
    assert(crate::scan::skip_ws(s, 11) == 11);
    assert(s[12] == SEMI);
    lemma_token_match_exact(s, 12, seq![SEMI], true);
    match le {
        LineEnding::Lf => {
            assert(s[13] == LF);
            assert(ending_at(s, 13) == Some(le));
        },
        LineEnding::CrLf => {
            assert(s[13] == CR && s[14] == LF);
            assert(ending_at(s, 13) == Some(le));
        },
    }
    assert(13 + le_len(le) == len);
    assert(s.subrange(11, 11) =~= Seq::<u8>::empty());
    let a = comment_attempt(s, 0, 0);
    assert(scan_text(s, doc) == scan_after(s, doc, 0, a, 0, Seq::empty()));
    let text = comment_text(0, Seq::empty(), le);
    assert(a == (MarkerHit::Hit { start: 0, end: len, text }));
    assert(step(0, len, len) == len);
    assert(flushed(s, Seq::empty(), 0, 0) + text =~= text);
    assert(scan_after(s, doc, 0, a, 0, Seq::empty()) == scan(s, doc, len, 0, len, text));
    assert(text + s.subrange(len, len) =~= text);
    assert(scan(s, doc, len, 0, len, text) == (ScanOutcome::Complete { out: text, changed: true }));
}


/// Positions at or after `i` stay inside the input: the comment runs to a
/// line feed or the end.
proof fn lemma_line_comment_end_bounds(s: Seq<u8>, i: int)
    requires
        0 <= i <= s.len(),
    ensures
        i <= line_comment_end(s, i) <= s.len(),
    decreases s.len() - i,
{
    if i < s.len() && s[i] != LF {
        lemma_line_comment_end_bounds(s, i + 1);
    }
}

/// Positions at or after `i` stay inside the input, at any depth.
proof fn lemma_block_comment_end_bounds(s: Seq<u8>, i: int, d: int)
    requires
        0 <= i <= s.len(),
    ensures
        i <= block_comment_end(s, i, d) <= s.len(),
    decreases s.len() - i,
{
    if i < s.len() {
        if i + 1 < s.len() && s[i] == STAR && s[i + 1] == SLASH {
            if d > 1 {
                lemma_block_comment_end_bounds(s, i + 2, d - 1);
            }
        } else if i + 1 < s.len() && s[i] == SLASH && s[i + 1] == STAR {
            lemma_block_comment_end_bounds(s, i + 2, d + 1);
        } else {
            lemma_block_comment_end_bounds(s, i + 1, d);
        }
    }
}

/// Positions at or after `i` stay inside the input, whatever the escape
/// state.
proof fn lemma_string_end_bounds(s: Seq<u8>, i: int, esc: bool)
    requires
        0 <= i <= s.len(),
    ensures
        i <= string_end(s, i, esc) <= s.len(),
    decreases s.len() - i,
{
    if i < s.len() && !(s[i] == QUOTE && !esc) {
        if s[i] == BACKSLASH && !esc {
            lemma_string_end_bounds(s, i + 1, true);
        } else {
            lemma_string_end_bounds(s, i + 1, false);
        }
    }
}

/// Positions at or after `i` stay inside the input, whatever the fence
/// count.
proof fn lemma_raw_body_end_bounds(s: Seq<u8>, i: int, k: int)
    requires
        0 <= i <= s.len(),
        0 <= k,
    ensures
        i <= raw_body_end(s, i, k) <= s.len(),
    decreases s.len() - i,
{
    if i < s.len() && !(s[i] == QUOTE && pads_match(s, i + 1, k)) {
        lemma_raw_body_end_bounds(s, i + 1, k);
    }
}

/// A fence run has nonnegative length and stays inside the input.
proof fn lemma_pad_run_bounds(s: Seq<u8>, i: int)
    requires
        0 <= i <= s.len(),
    ensures
        0 <= pad_run(s, i),
        i + pad_run(s, i) <= s.len(),
    decreases s.len() - i,
{
    if i < s.len() && s[i] == POUND {
        lemma_pad_run_bounds(s, i + 1);
    }
}

/// No marker anywhere: at every position where the scan could begin a
/// blank, comment or doc-block attempt, and behind every indentation run,
/// the attempt misses. This is the "zero marker occurrences" premise in
/// spec form; it rules out matches even inside comments and strings.
pub open spec fn marker_free(s: Seq<u8>, doc: bool) -> bool {
    forall|i: int, indent: int|
        #![trigger blank_attempt(s, i, indent)]
        #![trigger comment_attempt(s, i, indent)]
        #![trigger doc_attempt(s, i, indent)]
        0 <= indent <= i < s.len() ==> {
            &&& (s[i] == UNDERSCORE && i + 1 < s.len() && s[i + 1] == LOWER_B
                ==> blank_attempt(s, i, indent) is Miss)
            &&& (s[i] == UNDERSCORE && i + 1 < s.len() && s[i + 1] == LOWER_C
                ==> comment_attempt(s, i, indent) is Miss)
            &&& (doc && s[i] == POUND ==> doc_attempt(s, i, indent) is Miss)
        }
}

/// Idempotence on no-markers: a text in which no marker matches anywhere
/// scans to itself, unchanged. Together with the contract of
/// `replace_markers` (whose three outcomes are distinct), this forces the
/// `Unchanged` return, which carries no buffer.
pub proof fn lemma_no_marker_unchanged(s: Seq<u8>, doc: bool)
    requires
        marker_free(s, doc),
    ensures
        scan_text(s, doc) == (ScanOutcome::Complete { out: s, changed: false }),
{
    lemma_scan_marker_free(s, doc, 0, 0);
}

/// Helper for [`lemma_no_marker_unchanged`]: from any reachable scan state
/// whose copy mark has not moved, a marker-free text scans to completion
/// with nothing changed.
#[verifier::rlimit(100)]
#[verifier::spinoff_prover]
proof fn lemma_scan_marker_free(s: Seq<u8>, doc: bool, i: int, indent: int)
    requires
        marker_free(s, doc),
        0 <= indent <= i,
    ensures
        scan(s, doc, i, indent, 0, Seq::empty()) == (ScanOutcome::Complete {
            out: s,
            changed: false,
        }),
    decreases s.len() - i, 1int,
{
    let len = s.len() as int;
    let e = Seq::<u8>::empty();
    let here = scan(s, doc, i, indent, 0, e);
    if i >= len {
    } else if s[i] == LOWER_R {
        if raw_entry_ok(s, i + 1) {
            let n = step(i, len, raw_body_end(s, i + 2 + pad_run(s, i + 1), pad_run(s, i + 1)));
            lemma_scan_marker_free(s, doc, n, 0);
            assert(here == scan(s, doc, n, 0, 0, e));
        } else {
            let n = step(i, len, i + 1 + pad_run(s, i + 1));
            lemma_scan_marker_free(s, doc, n, 0);
            assert(here == scan(s, doc, n, 0, 0, e));
        }
    } else if s[i] == QUOTE {
        let n = step(i, len, string_end(s, i + 1, false));
        lemma_scan_marker_free(s, doc, n, 0);
        assert(here == scan(s, doc, n, 0, 0, e));
    } else if s[i] == SLASH {
        if i + 1 >= len {
        } else if s[i + 1] == SLASH {
            let n = step(i, len, line_comment_end(s, i + 2));
            lemma_scan_marker_free(s, doc, n, 0);
            assert(here == scan(s, doc, n, 0, 0, e));
        } else if s[i + 1] == STAR {
            let n = step(i, len, block_comment_end(s, i + 2, 1));
            lemma_scan_marker_free(s, doc, n, 0);
            assert(here == scan(s, doc, n, 0, 0, e));
        } else {
            lemma_scan_marker_free(s, doc, i + 1, 0);
            assert(here == scan(s, doc, i + 1, 0, 0, e));
        }
    } else if s[i] == UNDERSCORE {
        if i + 1 >= len {
        } else if s[i + 1] == LOWER_B {
            let a = blank_attempt(s, i, indent);
            assert(a is Miss);
            assert(here == scan_after(s, doc, i, a, 0, e));
            match a {
                MarkerHit::Miss(j) => {
                    let n = step(i, len, j);
                    lemma_scan_marker_free(s, doc, n, 0);
                    assert(scan_after(s, doc, i, a, 0, e) == scan(s, doc, n, 0, 0, e));
                },
                MarkerHit::Bad => {
                },
                MarkerHit::Hit { start, end, text } => {
                },
            }
        } else if s[i + 1] == LOWER_C {
            let a = comment_attempt(s, i, indent);
            assert(a is Miss);
            assert(here == scan_after(s, doc, i, a, 0, e));
            match a {
                MarkerHit::Miss(j) => {
                    let n = step(i, len, j);
                    lemma_scan_marker_free(s, doc, n, 0);
                    assert(scan_after(s, doc, i, a, 0, e) == scan(s, doc, n, 0, 0, e));
                },
                MarkerHit::Bad => {
                },
                MarkerHit::Hit { start, end, text } => {
                },
            }
        } else {
            lemma_scan_marker_free(s, doc, i + 1, 0);
            assert(here == scan(s, doc, i + 1, 0, 0, e));
        }
    } else if s[i] == POUND && doc {
        let a = doc_attempt(s, i, indent);
        assert(a is Miss);
        assert(here == scan_after(s, doc, i, a, 0, e));
        match a {
            MarkerHit::Miss(j) => {
                let n = step(i, len, j);
                lemma_scan_marker_free(s, doc, n, 0);
                assert(scan_after(s, doc, i, a, 0, e) == scan(s, doc, n, 0, 0, e));
            },
            MarkerHit::Bad => {
            },
            MarkerHit::Hit { start, end, text } => {
            },
        }
    } else if s[i] == SPACE {
        lemma_scan_marker_free(s, doc, i + 1, indent + 1);
        assert(here == scan(s, doc, i + 1, indent + 1, 0, e));
    } else {
        lemma_scan_marker_free(s, doc, i + 1, 0);
        assert(here == scan(s, doc, i + 1, 0, 0, e));
    }
}


/// The scan from position `i` on, with `indent` spaces directly behind it,
/// completes with the input unchanged. The lemmas below step this
/// predicate backwards over one construct at a time -- a skipped comment or
/// string, a missed attempt, an ordinary byte -- so chained from the end of
/// the input to its start they state false-positive immunity for a whole
/// text: marker-shaped bytes inside comments and strings of any larger
/// text are never replaced.
pub open spec fn scans_unchanged_from(s: Seq<u8>, doc: bool, i: int, indent: int) -> bool {
    scan(s, doc, i, indent, 0, Seq::empty()) == (ScanOutcome::Complete { out: s, changed: false })
}

/// Base step: past the end of the input nothing is left to change.
pub proof fn lemma_unchanged_past_end(s: Seq<u8>, doc: bool, i: int, indent: int)
    requires
        i >= s.len(),
    ensures
        scans_unchanged_from(s, doc, i, indent),
{
}

/// Step over one ordinary byte: a space extends the indent run, any other
/// byte that opens nothing resets it.
pub proof fn lemma_unchanged_ordinary_byte(s: Seq<u8>, doc: bool, i: int, indent: int)
    requires
        0 <= i < s.len(),
        s[i] != LOWER_R,
        s[i] != QUOTE,
        s[i] != SLASH,
        s[i] != UNDERSCORE,
        !(s[i] == POUND && doc),
        scans_unchanged_from(
            s,
            doc,
            i + 1,
            (if s[i] == SPACE {
                indent + 1
            } else {
                0
            }),
        ),
    ensures
        scans_unchanged_from(s, doc, i, indent),
{
}

/// Step over a whole line comment beginning at `i`: its body, whatever it
/// holds, is never examined for markers.
pub proof fn lemma_unchanged_line_comment(s: Seq<u8>, doc: bool, i: int, indent: int)
    requires
        0 <= i,
        i + 1 < s.len(),
        s[i] == SLASH,
        s[i + 1] == SLASH,
        scans_unchanged_from(s, doc, line_comment_end(s, i + 2), 0),
    ensures
        scans_unchanged_from(s, doc, i, indent),
{
    lemma_line_comment_end_bounds(s, i + 2);
}

/// Step over a whole block comment beginning at `i`, nested or not.
pub proof fn lemma_unchanged_block_comment(s: Seq<u8>, doc: bool, i: int, indent: int)
    requires
        0 <= i,
        i + 1 < s.len(),
        s[i] == SLASH,
        s[i + 1] == STAR,
        scans_unchanged_from(s, doc, block_comment_end(s, i + 2, 1), 0),
    ensures
        scans_unchanged_from(s, doc, i, indent),
{
    lemma_block_comment_end_bounds(s, i + 2, 1);
}

/// Step over a whole string literal beginning at `i`.
pub proof fn lemma_unchanged_string(s: Seq<u8>, doc: bool, i: int, indent: int)
    requires
        0 <= i < s.len(),
        s[i] == QUOTE,
        scans_unchanged_from(s, doc, string_end(s, i + 1, false), 0),
    ensures
        scans_unchanged_from(s, doc, i, indent),
{
    lemma_string_end_bounds(s, i + 1, false);
}

/// Step over a whole raw string beginning at `i`, of any fence depth.
pub proof fn lemma_unchanged_raw_string(s: Seq<u8>, doc: bool, i: int, indent: int)
    requires
        0 <= i < s.len(),
        s[i] == LOWER_R,
        raw_entry_ok(s, i + 1),
        scans_unchanged_from(
            s,
            doc,
            raw_body_end(s, i + 2 + pad_run(s, i + 1), pad_run(s, i + 1)),
            0,
        ),
    ensures
        scans_unchanged_from(s, doc, i, indent),
{
    lemma_pad_run_bounds(s, i + 1);
    lemma_raw_body_end_bounds(s, i + 2 + pad_run(s, i + 1), pad_run(s, i + 1));
}

/// Step over an `r` that opens no raw string: scanning resumes at the byte
/// that broke the fence run.
pub proof fn lemma_unchanged_raw_entry_fail(s: Seq<u8>, doc: bool, i: int, indent: int)
    requires
        0 <= i < s.len(),
        s[i] == LOWER_R,
        !raw_entry_ok(s, i + 1),
        scans_unchanged_from(s, doc, i + 1 + pad_run(s, i + 1), 0),
    ensures
        scans_unchanged_from(s, doc, i, indent),
{
    lemma_pad_run_bounds(s, i + 1);
}

/// Step over a `/` that opens no comment.
pub proof fn lemma_unchanged_slash_other(s: Seq<u8>, doc: bool, i: int, indent: int)
    requires
        0 <= i < s.len(),
        s[i] == SLASH,
        i + 1 < s.len() ==> s[i + 1] != SLASH && s[i + 1] != STAR,
        scans_unchanged_from(s, doc, i + 1, 0),
    ensures
        scans_unchanged_from(s, doc, i, indent),
{
}

/// Step over a `_` that begins no marker attempt.
pub proof fn lemma_unchanged_underscore_other(s: Seq<u8>, doc: bool, i: int, indent: int)
    requires
        0 <= i < s.len(),
        s[i] == UNDERSCORE,
        i + 1 < s.len() ==> s[i + 1] != LOWER_B && s[i + 1] != LOWER_C,
        scans_unchanged_from(s, doc, i + 1, 0),
    ensures
        scans_unchanged_from(s, doc, i, indent),
{
}

/// Step over a missed blank-marker attempt: scanning resumes where the
/// grammar broke off.
pub proof fn lemma_unchanged_blank_miss(s: Seq<u8>, doc: bool, i: int, indent: int, j: int)
    requires
        0 <= i,
        i + 1 < s.len(),
        s[i] == UNDERSCORE,
        s[i + 1] == LOWER_B,
        blank_attempt(s, i, indent) == MarkerHit::Miss(j),
        scans_unchanged_from(s, doc, step(i, s.len() as int, j), 0),
    ensures
        scans_unchanged_from(s, doc, i, indent),
{
    let e = Seq::<u8>::empty();
    assert(scan(s, doc, i, indent, 0, e) == scan_after(s, doc, i, blank_attempt(s, i, indent), 0, e));
    assert(scan_after(s, doc, i, blank_attempt(s, i, indent), 0, e) == scan(
        s,
        doc,
        step(i, s.len() as int, j),
        0,
        0,
        e,
    ));
}

/// Step over a missed comment-marker attempt.
pub proof fn lemma_unchanged_comment_miss(s: Seq<u8>, doc: bool, i: int, indent: int, j: int)
    requires
        0 <= i,
        i + 1 < s.len(),
        s[i] == UNDERSCORE,
        s[i + 1] == LOWER_C,
        comment_attempt(s, i, indent) == MarkerHit::Miss(j),
        scans_unchanged_from(s, doc, step(i, s.len() as int, j), 0),
    ensures
        scans_unchanged_from(s, doc, i, indent),
{
    let e = Seq::<u8>::empty();
    assert(scan(s, doc, i, indent, 0, e) == scan_after(s, doc, i, comment_attempt(s, i, indent), 0, e));
    assert(scan_after(s, doc, i, comment_attempt(s, i, indent), 0, e) == scan(
        s,
        doc,
        step(i, s.len() as int, j),
        0,
        0,
        e,
    ));
}

/// Step over a missed doc-block attempt.
pub proof fn lemma_unchanged_doc_miss(s: Seq<u8>, doc: bool, i: int, indent: int, j: int)
    requires
        0 <= i < s.len(),
        doc,
        s[i] == POUND,
        doc_attempt(s, i, indent) == MarkerHit::Miss(j),
        scans_unchanged_from(s, doc, step(i, s.len() as int, j), 0),
    ensures
        scans_unchanged_from(s, doc, i, indent),
{
    let e = Seq::<u8>::empty();
    assert(scan(s, doc, i, indent, 0, e) == scan_after(s, doc, i, doc_attempt(s, i, indent), 0, e));
    assert(scan_after(s, doc, i, doc_attempt(s, i, indent), 0, e) == scan(
        s,
        doc,
        step(i, s.len() as int, j),
        0,
        0,
        e,
    ));
}

/// Step over a run of ordinary bytes at once, for every indent value:
/// convenient for the plain text between two skipped regions.
pub proof fn lemma_unchanged_ordinary_run(s: Seq<u8>, doc: bool, a: int, b: int)
    requires
        0 <= a <= b <= s.len(),
        forall|k: int|
            a <= k < b ==> s[k] != LOWER_R && s[k] != QUOTE && s[k] != SLASH && s[k]
                != UNDERSCORE && !(s[k] == POUND && doc),
        forall|ind: int| 0 <= ind ==> scans_unchanged_from(s, doc, b, ind),
    ensures
        forall|ind: int| 0 <= ind ==> scans_unchanged_from(s, doc, a, ind),
    decreases b - a,
{
    if a < b {
        lemma_unchanged_ordinary_run(s, doc, a + 1, b);
        assert forall|ind: int| 0 <= ind implies scans_unchanged_from(s, doc, a, ind) by {
            if s[a] == SPACE {
                assert(scans_unchanged_from(s, doc, a + 1, ind + 1));
            } else {
                assert(scans_unchanged_from(s, doc, a + 1, 0));
            }
            lemma_unchanged_ordinary_byte(s, doc, a, ind);
        }
    }
}


/// A marker attempt's miss does not depend on the indentation run: the
/// indent enters only a hit's span and rendering.
proof fn lemma_blank_miss_any_indent(s: Seq<u8>, i: int, indent: int)
    requires
        blank_attempt(s, i, 0) is Miss,
    ensures
        blank_attempt(s, i, indent) == blank_attempt(s, i, 0),
{
}

/// As [`lemma_blank_miss_any_indent`], for the comment marker.
proof fn lemma_comment_miss_any_indent(s: Seq<u8>, i: int, indent: int)
    requires
        comment_attempt(s, i, 0) is Miss,
    ensures
        comment_attempt(s, i, indent) == comment_attempt(s, i, 0),
{
}

/// As [`lemma_blank_miss_any_indent`], for the doc block.
proof fn lemma_doc_miss_any_indent(s: Seq<u8>, i: int, indent: int)
    requires
        doc_attempt(s, i, 0) is Miss,
    ensures
        doc_attempt(s, i, indent) == doc_attempt(s, i, 0),
{
}

/// Every marker-shaped span from `i` on lies inside a comment or a string:
/// walking the text as the scanner classifies it -- stepping over whole
/// comments and string literals, resuming after a missed attempt -- every
/// blank, comment and doc-block attempt misses. The bytes inside the
/// skipped regions are unconstrained, so marker-shaped text there is
/// allowed; only a marker the scanner would actually reach is ruled out.
pub open spec fn no_bare_marker_from(s: Seq<u8>, doc: bool, i: int) -> bool
    decreases s.len() - i,
{
    if i < 0 || i >= s.len() {
        true
    } else if s[i] == LOWER_R {
        let k = pad_run(s, i + 1);
        if raw_entry_ok(s, i + 1) {
            no_bare_marker_from(s, doc, step(i, s.len() as int, raw_body_end(s, i + 2 + k, k)))
        } else {
            no_bare_marker_from(s, doc, step(i, s.len() as int, i + 1 + k))
        }
    } else if s[i] == QUOTE {
        no_bare_marker_from(s, doc, step(i, s.len() as int, string_end(s, i + 1, false)))
    } else if s[i] == SLASH {
        if i + 1 >= s.len() {
            true
        } else if s[i + 1] == SLASH {
            no_bare_marker_from(s, doc, step(i, s.len() as int, line_comment_end(s, i + 2)))
        } else if s[i + 1] == STAR {
            no_bare_marker_from(s, doc, step(i, s.len() as int, block_comment_end(s, i + 2, 1)))
        } else {
            no_bare_marker_from(s, doc, i + 1)
        }
    } else if s[i] == UNDERSCORE {
        if i + 1 >= s.len() {
            true
        } else if s[i + 1] == LOWER_B {
            match blank_attempt(s, i, 0) {
                MarkerHit::Miss(j) => no_bare_marker_from(s, doc, step(i, s.len() as int, j)),
                MarkerHit::Bad => false,
                MarkerHit::Hit { start, end, text } => false,
            }
        } else if s[i + 1] == LOWER_C {
            match comment_attempt(s, i, 0) {
                MarkerHit::Miss(j) => no_bare_marker_from(s, doc, step(i, s.len() as int, j)),
                MarkerHit::Bad => false,
                MarkerHit::Hit { start, end, text } => false,
            }
        } else {
            no_bare_marker_from(s, doc, i + 1)
        }
    } else if s[i] == POUND && doc {
        match doc_attempt(s, i, 0) {
            MarkerHit::Miss(j) => no_bare_marker_from(s, doc, step(i, s.len() as int, j)),
            MarkerHit::Bad => false,
            MarkerHit::Hit { start, end, text } => false,
        }
    } else {
        no_bare_marker_from(s, doc, i + 1)
    }
}

/// False-positive immunity, in one statement: a text whose marker-shaped
/// spans all lie inside line comments, block comments (nested or not),
/// string literals or raw strings of any fence depth scans to itself,
/// unchanged, for either gating flag.
pub proof fn lemma_no_bare_marker_unchanged(s: Seq<u8>, doc: bool)
    requires
        no_bare_marker_from(s, doc, 0),
    ensures
        scan_text(s, doc) == (ScanOutcome::Complete { out: s, changed: false }),
{
    lemma_scan_no_bare_marker(s, doc, 0, 0);
}

/// Helper for [`lemma_no_bare_marker_unchanged`]: the premise and the scan
/// walk the text in lockstep, so from any reachable state the scan
/// completes with nothing changed.
#[verifier::rlimit(100)]
#[verifier::spinoff_prover]
proof fn lemma_scan_no_bare_marker(s: Seq<u8>, doc: bool, i: int, indent: int)
    requires
        no_bare_marker_from(s, doc, i),
        0 <= indent <= i,
    ensures
        scan(s, doc, i, indent, 0, Seq::empty()) == (ScanOutcome::Complete {
            out: s,
            changed: false,
        }),
    decreases s.len() - i, 1int,
{
    let len = s.len() as int;
    let e = Seq::<u8>::empty();
    let here = scan(s, doc, i, indent, 0, e);
    if i >= len {
    } else if s[i] == LOWER_R {
        if raw_entry_ok(s, i + 1) {
            let n = step(i, len, raw_body_end(s, i + 2 + pad_run(s, i + 1), pad_run(s, i + 1)));
            lemma_scan_no_bare_marker(s, doc, n, 0);
            assert(here == scan(s, doc, n, 0, 0, e));
        } else {
            let n = step(i, len, i + 1 + pad_run(s, i + 1));
            lemma_scan_no_bare_marker(s, doc, n, 0);
            assert(here == scan(s, doc, n, 0, 0, e));
        }
    } else if s[i] == QUOTE {
        let n = step(i, len, string_end(s, i + 1, false));
        lemma_scan_no_bare_marker(s, doc, n, 0);
        assert(here == scan(s, doc, n, 0, 0, e));
    } else if s[i] == SLASH {
        if i + 1 >= len {
        } else if s[i + 1] == SLASH {
            let n = step(i, len, line_comment_end(s, i + 2));
            lemma_scan_no_bare_marker(s, doc, n, 0);
            assert(here == scan(s, doc, n, 0, 0, e));
        } else if s[i + 1] == STAR {
            let n = step(i, len, block_comment_end(s, i + 2, 1));
            lemma_scan_no_bare_marker(s, doc, n, 0);
            assert(here == scan(s, doc, n, 0, 0, e));
        } else {
            lemma_scan_no_bare_marker(s, doc, i + 1, 0);
            assert(here == scan(s, doc, i + 1, 0, 0, e));
        }
    } else if s[i] == UNDERSCORE {
        if i + 1 >= len {
        } else if s[i + 1] == LOWER_B {
            lemma_blank_miss_any_indent(s, i, indent);
            let a = blank_attempt(s, i, indent);
            assert(here == scan_after(s, doc, i, a, 0, e));
            match a {
                MarkerHit::Miss(j) => {
                    let n = step(i, len, j);
                    lemma_scan_no_bare_marker(s, doc, n, 0);
                    assert(scan_after(s, doc, i, a, 0, e) == scan(s, doc, n, 0, 0, e));
                },
                MarkerHit::Bad => {
                },
                MarkerHit::Hit { start, end, text } => {
                },
            }
        } else if s[i + 1] == LOWER_C {
            lemma_comment_miss_any_indent(s, i, indent);
            let a = comment_attempt(s, i, indent);
            assert(here == scan_after(s, doc, i, a, 0, e));
            match a {
                MarkerHit::Miss(j) => {
                    let n = step(i, len, j);
                    lemma_scan_no_bare_marker(s, doc, n, 0);
                    assert(scan_after(s, doc, i, a, 0, e) == scan(s, doc, n, 0, 0, e));
                },
                MarkerHit::Bad => {
                },
                MarkerHit::Hit { start, end, text } => {
                },
            }
        } else {
            lemma_scan_no_bare_marker(s, doc, i + 1, 0);
            assert(here == scan(s, doc, i + 1, 0, 0, e));
        }
    } else if s[i] == POUND && doc {
        lemma_doc_miss_any_indent(s, i, indent);
        let a = doc_attempt(s, i, indent);
        assert(here == scan_after(s, doc, i, a, 0, e));
        match a {
            MarkerHit::Miss(j) => {
                let n = step(i, len, j);
                lemma_scan_no_bare_marker(s, doc, n, 0);
                assert(scan_after(s, doc, i, a, 0, e) == scan(s, doc, n, 0, 0, e));
            },
            MarkerHit::Bad => {
            },
            MarkerHit::Hit { start, end, text } => {
            },
        }
    } else if s[i] == SPACE {
        lemma_scan_no_bare_marker(s, doc, i + 1, indent + 1);
        assert(here == scan(s, doc, i + 1, indent + 1, 0, e));
    } else {
        lemma_scan_no_bare_marker(s, doc, i + 1, 0);
        assert(here == scan(s, doc, i + 1, 0, 0, e));
    }
}


/// Everything before the found byte differs from it.
proof fn lemma_find_byte_first(s: Seq<u8>, i: int, b: u8)
    requires
        0 <= i,
    ensures
        forall|m: int| i <= m < find_byte(s, i, b) ==> s[m] != b,
    decreases s.len() - i,
{
    if i < s.len() && s[i] != b {
        lemma_find_byte_first(s, i + 1, b);
    }
}

/// The found position stays inside the input.
proof fn lemma_find_byte_bounds(s: Seq<u8>, i: int, b: u8)
    requires
        0 <= i <= s.len(),
    ensures
        i <= find_byte(s, i, b) <= s.len(),
    decreases s.len() - i,
{
    if i < s.len() && s[i] != b {
        lemma_find_byte_bounds(s, i + 1, b);
    }
}

/// A blank rendering is line endings only.
proof fn lemma_blank_text_bytes(n: int, le: LineEnding)
    ensures
        forall|k: int|
            0 <= k < blank_text(n, le).len() ==> blank_text(n, le)[k] == CR || blank_text(n, le)[k]
                == LF,
    decreases n,
{
    if n > 0 {
        lemma_blank_text_bytes(n - 1, le);
        assert(blank_text(n, le) == blank_text(n - 1, le) + le_bytes(le));
        match le {
            LineEnding::Lf => {
                assert(le_bytes(le) =~= seq![LF]);
            },
            LineEnding::CrLf => {
                assert(le_bytes(le) =~= seq![CR, LF]);
            },
        }
    }
}

/// What a blank marker renders to scans to itself, unchanged: a second
/// pass over rendered blank lines finds nothing to replace.
pub proof fn lemma_blank_text_rescans_unchanged(n: int, le: LineEnding, doc: bool)
    ensures
        scan_text(blank_text(n, le), doc) == (ScanOutcome::Complete {
            out: blank_text(n, le),
            changed: false,
        }),
{
    let s = blank_text(n, le);
    let len = s.len() as int;
    lemma_blank_text_bytes(n, le);
    assert forall|ind: int| 0 <= ind implies scans_unchanged_from(s, doc, len, ind) by {
        lemma_unchanged_past_end(s, doc, len, ind);
    }
    lemma_unchanged_ordinary_run(s, doc, 0, len);
    assert(scans_unchanged_from(s, doc, 0, 0));
}


/// One rendered comment line standing at `o` of a larger text is re-read
/// as indentation and a line comment: whatever follows it scans unchanged,
/// so does the text from the line on.
proof fn lemma_comment_line_step(
    s: Seq<u8>,
    doc: bool,
    o: int,
    nxt: int,
    ind: int,
    line: Seq<u8>,
    le: LineEnding,
)
    requires
        0 <= o,
        0 <= ind,
        forall|m: int| 0 <= m < line.len() ==> line[m] != LF,
        nxt == o + comment_line(ind, line, le).len(),
        nxt <= s.len(),
        forall|k: int|
            0 <= k < comment_line(ind, line, le).len() ==> s[o + k] == comment_line(
                ind,
                line,
                le,
            )[k],
        forall|ind2: int| 0 <= ind2 ==> scans_unchanged_from(s, doc, nxt, ind2),
    ensures
        forall|ind2: int| 0 <= ind2 ==> scans_unchanged_from(s, doc, o, ind2),
{
    let cl = comment_line(ind, line, le);
    let ll = cl.len() as int;
    assert(forall|t: int| 0 <= t < ind ==> cl[t] == SPACE);
    assert(cl[ind] == SLASH && cl[ind + 1] == SLASH);
    assert(cl[ll - 1] == LF) by {
        match le {
            LineEnding::Lf => {
            },
            LineEnding::CrLf => {
            },
        }
    }
    assert forall|t: int| ind + 2 <= t < ll - 1 implies cl[t] != LF by {
        if line.len() == 0 {
            match le {
                LineEnding::Lf => {
                },
                LineEnding::CrLf => {
                    assert(cl[t] == CR);
                },
            }
        } else {
            if t == ind + 2 {
                assert(cl[t] == SPACE);
            } else if t < ind + 3 + line.len() {
                assert(cl[t] == line[t - ind - 3]);
            } else {
                match le {
                    LineEnding::Lf => {
                    },
                    LineEnding::CrLf => {
                        assert(cl[t] == CR);
                    },
                }
            }
        }
    }
    assert forall|t: int| o + ind + 2 <= t < o + ll - 1 implies s[t] != LF by {
        let k = t - o;
        assert(cl[k] != LF);
        assert(s[o + k] == cl[k]);
    }
    lemma_line_comment_skips(s, o + ind + 2, o + ll - 1);
    assert(s[o + (ll - 1)] == cl[ll - 1]);
    assert(s[o + ll - 1] == LF);
    assert(line_comment_end(s, o + ll - 1) == o + ll);
    assert(s[o + ind] == cl[ind] && s[o + (ind + 1)] == cl[ind + 1]);
    assert(s[o + ind] == SLASH && s[o + ind + 1] == SLASH);
    lemma_unchanged_line_comment_all(s, doc, o + ind);
    assert forall|t: int| o <= t < o + ind implies s[t] == SPACE by {
        let k = t - o;
        assert(cl[k] == SPACE);
        assert(s[o + k] == cl[k]);
    }
    lemma_unchanged_ordinary_run(s, doc, o, o + ind);
}

/// As [`lemma_unchanged_line_comment`], concluded for every indent at
/// once.
proof fn lemma_unchanged_line_comment_all(s: Seq<u8>, doc: bool, i: int)
    requires
        0 <= i,
        i + 1 < s.len(),
        s[i] == SLASH,
        s[i + 1] == SLASH,
        scans_unchanged_from(s, doc, line_comment_end(s, i + 2), 0),
    ensures
        forall|ind2: int| 0 <= ind2 ==> scans_unchanged_from(s, doc, i, ind2),
{
    assert forall|ind2: int| 0 <= ind2 implies scans_unchanged_from(s, doc, i, ind2) by {
        lemma_unchanged_line_comment(s, doc, i, ind2);
    }
}


/// One rendered doc line standing at `o` of a larger text is re-read as
/// indentation and a line comment, exactly as a comment line is.
proof fn lemma_doc_line_step(
    s: Seq<u8>,
    doc: bool,
    o: int,
    nxt: int,
    ind: int,
    line: Seq<u8>,
    le: LineEnding,
)
    requires
        0 <= o,
        0 <= ind,
        forall|m: int| 0 <= m < line.len() ==> line[m] != LF,
        nxt == o + doc_line(ind, line, le).len(),
        nxt <= s.len(),
        forall|k: int|
            0 <= k < doc_line(ind, line, le).len() ==> s[o + k] == doc_line(ind, line, le)[k],
        forall|ind2: int| 0 <= ind2 ==> scans_unchanged_from(s, doc, nxt, ind2),
    ensures
        forall|ind2: int| 0 <= ind2 ==> scans_unchanged_from(s, doc, o, ind2),
{
    let cl = doc_line(ind, line, le);
    let ll = cl.len() as int;
    assert(forall|t: int| 0 <= t < ind ==> cl[t] == SPACE);
    assert(cl[ind] == SLASH && cl[ind + 1] == SLASH && cl[ind + 2] == SLASH);
    assert(cl[ll - 1] == LF) by {
        match le {
            LineEnding::Lf => {
            },
            LineEnding::CrLf => {
            },
        }
    }
    assert forall|t: int| ind + 2 <= t < ll - 1 implies cl[t] != LF by {
        if t == ind + 2 {
            assert(cl[t] == SLASH);
        } else if t < ind + 3 + line.len() {
            assert(cl[t] == line[t - ind - 3]);
        } else {
            match le {
                LineEnding::Lf => {
                },
                LineEnding::CrLf => {
                    assert(cl[t] == CR);
                },
            }
        }
    }
    assert forall|t: int| o + ind + 2 <= t < o + ll - 1 implies s[t] != LF by {
        let k = t - o;
        assert(cl[k] != LF);
        assert(s[o + k] == cl[k]);
    }
    lemma_line_comment_skips(s, o + ind + 2, o + ll - 1);
    assert(s[o + (ll - 1)] == cl[ll - 1]);
    assert(s[o + ll - 1] == LF);
    assert(line_comment_end(s, o + ll - 1) == o + ll);
    assert(s[o + ind] == cl[ind] && s[o + (ind + 1)] == cl[ind + 1]);
    assert(s[o + ind] == SLASH && s[o + ind + 1] == SLASH);
    lemma_unchanged_line_comment_all(s, doc, o + ind);
    assert forall|t: int| o <= t < o + ind implies s[t] == SPACE by {
        let k = t - o;
        assert(cl[k] == SPACE);
        assert(s[o + k] == cl[k]);
    }
    lemma_unchanged_ordinary_run(s, doc, o, o + ind);
}

/// The rendered comment lines of the payload `c` from `p` on, standing as
/// the tail of `s`, re-scan unchanged.
proof fn lemma_comment_body_rescans(
    s: Seq<u8>,
    doc: bool,
    o: int,
    ind: int,
    c: Seq<u8>,
    p: int,
    le: LineEnding,
)
    requires
        0 <= o,
        0 <= p,
        0 <= ind,
        o + comment_body(ind, c, p, le).len() == s.len(),
        forall|k: int|
            0 <= k < comment_body(ind, c, p, le).len() ==> s[o + k] == comment_body(
                ind,
                c,
                p,
                le,
            )[k],
    ensures
        forall|ind2: int| 0 <= ind2 ==> scans_unchanged_from(s, doc, o, ind2),
    decreases c.len() - p,
{
    let body = comment_body(ind, c, p, le);
    if p >= c.len() {
        assert forall|ind2: int| 0 <= ind2 implies scans_unchanged_from(s, doc, o, ind2) by {
            lemma_unchanged_past_end(s, doc, o, ind2);
        }
    } else {
        let j = find_byte(c, p, LF);
        lemma_find_byte_bounds(c, p, LF);
        lemma_find_byte_first(c, p, LF);
        if j < c.len() {
            let line = payload_line(c, p, j);
            assert forall|m: int| 0 <= m < line.len() implies line[m] != LF by {
                assert(line[m] == c[p + m]);
            }
            let cl = comment_line(ind, line, le);
            let rest = comment_body(ind, c, j + 1, le);
            assert(body == cl + rest);
            let nxt = o + cl.len();
            assert forall|k: int| 0 <= k < rest.len() implies s[nxt + k] == rest[k] by {
                assert(body[cl.len() + k] == rest[k]);
                assert(s[o + (cl.len() + k)] == body[cl.len() + k]);
            }
            lemma_comment_body_rescans(s, doc, nxt, ind, c, j + 1, le);
            assert forall|k: int| 0 <= k < cl.len() implies s[o + k] == cl[k] by {
                assert(body[k] == cl[k]);
            }
            lemma_comment_line_step(s, doc, o, nxt, ind, line, le);
        } else {
            let line = c.subrange(p, c.len() as int);
            assert forall|m: int| 0 <= m < line.len() implies line[m] != LF by {
                assert(line[m] == c[p + m]);
            }
            let cl = comment_line(ind, line, le);
            assert(body == cl);
            let nxt = o + cl.len();
            assert(nxt == s.len());
            assert forall|ind2: int| 0 <= ind2 implies scans_unchanged_from(s, doc, nxt, ind2) by {
                lemma_unchanged_past_end(s, doc, nxt, ind2);
            }
            lemma_comment_line_step(s, doc, o, nxt, ind, line, le);
        }
    }
}

/// The rendered doc lines of the payload `c` from `p` on, standing as the
/// tail of `s`, re-scan unchanged.
proof fn lemma_doc_body_rescans(
    s: Seq<u8>,
    doc: bool,
    o: int,
    ind: int,
    c: Seq<u8>,
    p: int,
    le: LineEnding,
)
    requires
        0 <= o,
        0 <= p,
        0 <= ind,
        o + doc_body(ind, c, p, le).len() == s.len(),
        forall|k: int|
            0 <= k < doc_body(ind, c, p, le).len() ==> s[o + k] == doc_body(ind, c, p, le)[k],
    ensures
        forall|ind2: int| 0 <= ind2 ==> scans_unchanged_from(s, doc, o, ind2),
    decreases c.len() - p,
{
    let body = doc_body(ind, c, p, le);
    if p >= c.len() {
        assert forall|ind2: int| 0 <= ind2 implies scans_unchanged_from(s, doc, o, ind2) by {
            lemma_unchanged_past_end(s, doc, o, ind2);
        }
    } else {
        let j = find_byte(c, p, LF);
        lemma_find_byte_bounds(c, p, LF);
        lemma_find_byte_first(c, p, LF);
        if j < c.len() {
            let line = payload_line(c, p, j);
            assert forall|m: int| 0 <= m < line.len() implies line[m] != LF by {
                assert(line[m] == c[p + m]);
            }
            let cl = doc_line(ind, line, le);
            let rest = doc_body(ind, c, j + 1, le);
            assert(body == cl + rest);
            let nxt = o + cl.len();
            assert forall|k: int| 0 <= k < rest.len() implies s[nxt + k] == rest[k] by {
                assert(body[cl.len() + k] == rest[k]);
                assert(s[o + (cl.len() + k)] == body[cl.len() + k]);
            }
            lemma_doc_body_rescans(s, doc, nxt, ind, c, j + 1, le);
            assert forall|k: int| 0 <= k < cl.len() implies s[o + k] == cl[k] by {
                assert(body[k] == cl[k]);
            }
            lemma_doc_line_step(s, doc, o, nxt, ind, line, le);
        } else {
            let line = c.subrange(p, c.len() as int);
            assert forall|m: int| 0 <= m < line.len() implies line[m] != LF by {
                assert(line[m] == c[p + m]);
            }
            let cl = doc_line(ind, line, le);
            assert(body == cl);
            let nxt = o + cl.len();
            assert(nxt == s.len());
            assert forall|ind2: int| 0 <= ind2 implies scans_unchanged_from(s, doc, nxt, ind2) by {
                lemma_unchanged_past_end(s, doc, nxt, ind2);
            }
            lemma_doc_line_step(s, doc, o, nxt, ind, line, le);
        }
    }
}

/// What a comment marker renders to scans to itself, unchanged: a second
/// pass over rendered comment lines finds nothing to replace.
pub proof fn lemma_comment_text_rescans_unchanged(ind: int, c: Seq<u8>, le: LineEnding, doc: bool)
    requires
        0 <= ind,
    ensures
        scan_text(comment_text(ind, c, le), doc) == (ScanOutcome::Complete {
            out: comment_text(ind, c, le),
            changed: false,
        }),
{
    let s = comment_text(ind, c, le);
    if c.len() == 0 {
        let line = Seq::<u8>::empty();
        let nxt = s.len() as int;
        assert(s == comment_line(ind, line, le));
        assert forall|ind2: int| 0 <= ind2 implies scans_unchanged_from(s, doc, nxt, ind2) by {
            lemma_unchanged_past_end(s, doc, nxt, ind2);
        }
        assert forall|k: int|
            0 <= k < comment_line(ind, line, le).len() implies s[0 + k] == comment_line(
                ind,
                line,
                le,
            )[k] by {
            assert(s[k] == comment_line(ind, line, le)[k]);
        }
        lemma_comment_line_step(s, doc, 0, nxt, ind, line, le);
    } else {
        assert(s == comment_body(ind, c, 0, le));
        assert forall|k: int|
            0 <= k < comment_body(ind, c, 0, le).len() implies s[0 + k] == comment_body(
                ind,
                c,
                0,
                le,
            )[k] by {
            assert(s[k] == comment_body(ind, c, 0, le)[k]);
        }
        lemma_comment_body_rescans(s, doc, 0, ind, c, 0, le);
    }
    assert(scans_unchanged_from(s, doc, 0, 0));
}

/// What a doc block renders to scans to itself, unchanged: a second pass
/// over rendered doc lines finds nothing to replace, for either gating
/// flag.
pub proof fn lemma_doc_text_rescans_unchanged(ind: int, c: Seq<u8>, le: LineEnding, doc: bool)
    requires
        0 <= ind,
    ensures
        scan_text(doc_text(ind, c, le), doc) == (ScanOutcome::Complete {
            out: doc_text(ind, c, le),
            changed: false,
        }),
{
    let s = doc_text(ind, c, le);
    if c.len() == 0 {
        let line = Seq::<u8>::empty();
        let nxt = s.len() as int;
        assert(s == doc_line(ind, line, le));
        assert forall|ind2: int| 0 <= ind2 implies scans_unchanged_from(s, doc, nxt, ind2) by {
            lemma_unchanged_past_end(s, doc, nxt, ind2);
        }
        assert forall|k: int|
            0 <= k < doc_line(ind, line, le).len() implies s[0 + k] == doc_line(
                ind,
                line,
                le,
            )[k] by {
            assert(s[k] == doc_line(ind, line, le)[k]);
        }
        lemma_doc_line_step(s, doc, 0, nxt, ind, line, le);
    } else {
        assert(s == doc_body(ind, c, 0, le));
        assert forall|k: int|
            0 <= k < doc_body(ind, c, 0, le).len() implies s[0 + k] == doc_body(
                ind,
                c,
                0,
                le,
            )[k] by {
            assert(s[k] == doc_body(ind, c, 0, le)[k]);
        }
        lemma_doc_body_rescans(s, doc, 0, ind, c, 0, le);
    }
    assert(scans_unchanged_from(s, doc, 0, 0));
}

} // verus!
