//! The driver: a single left-to-right pass over the input bytes that skips
//! comments and string literals, attempts a marker wherever one could
//! start, and copies everything else through untouched.
//!
//! The whole pass is defined by the recursive spec function [`scan`], a
//! step-for-step account of the scan state: the read position, the run of
//! spaces directly behind it, the copy mark (how far the input has been
//! consumed into the output) and the output gathered so far. The executable
//! [`replace_markers`] is proved to return exactly what `scan` says.

use vstd::prelude::*;

use crate::markers::{
    blank_attempt, comment_attempt, doc_attempt, match_blank_marker, match_comment_marker,
    match_doc_block, MarkerHit, MarkerOutcome,
};
use crate::render::append_slice;
use crate::scan::{
    block_comment_end, line_comment_end, pad_run, raw_body_end, raw_entry_ok, raw_string_entry,
    skip_block_comment, skip_line_comment, skip_raw_body, skip_string, string_end, LOWER_B,
    LOWER_C, LOWER_R, POUND, QUOTE, SLASH, SPACE, STAR, UNDERSCORE,
};
use crate::{Error, Replaced};

verus! {

/// Ghost outcome of a whole scan.
pub enum ScanOutcome {
    /// The scan ran to the end of the input: the full output text, and
    /// whether any marker was replaced along the way.
    Complete { out: Seq<u8>, changed: bool },
    /// A marker prefix whose grammar never completes: the scan aborts.
    Malformed,
}

/// End of input: flush the tail behind the copy mark. A mark still at zero
/// means no marker ever matched, and the output is the input itself.
pub open spec fn scan_finish(s: Seq<u8>, mark: int, out: Seq<u8>) -> ScanOutcome {
    if mark > 0 {
        ScanOutcome::Complete { out: out + s.subrange(mark, s.len() as int), changed: true }
    } else {
        ScanOutcome::Complete { out: s, changed: false }
    }
}

/// Guard for the recursion's measure: the scan position only moves
/// forward, by at least one byte and never past the end.
pub open spec fn step(i: int, len: int, j: int) -> int {
    if j <= i {
        i + 1
    } else if j > len {
        len
    } else {
        j
    }
}

/// The output after flushing the verbatim bytes of `mark..start`; nothing
/// is flushed when the span is empty.
pub open spec fn flushed(s: Seq<u8>, out: Seq<u8>, mark: int, start: int) -> Seq<u8> {
    if start > mark {
        out + s.subrange(mark, start)
    } else {
        out
    }
}

/// One classification step of the scan, at position `i` with `indent`
/// spaces directly behind it, the copy mark at `mark` and `out` gathered so
/// far. `r` begins a raw string to skip, a quote a plain string, `//` a
/// line comment, `/*` a block comment; `_b` and `_c` begin marker attempts,
/// `#` a doc-block attempt when doc replacement is on; a space extends the
/// indent run; any other byte is ordinary text. A failed skip or attempt
/// resumes scanning at the byte that broke it.
pub open spec fn scan(s: Seq<u8>, doc: bool, i: int, indent: int, mark: int, out: Seq<u8>) -> ScanOutcome
    decreases s.len() - i, 1int,
{
    if i < 0 || i >= s.len() {
        scan_finish(s, mark, out)
    } else if s[i] == LOWER_R {
        let k = pad_run(s, i + 1);
        if raw_entry_ok(s, i + 1) {
            scan(s, doc, step(i, s.len() as int, raw_body_end(s, i + 2 + k, k)), 0, mark, out)
        } else {
            scan(s, doc, step(i, s.len() as int, i + 1 + k), 0, mark, out)
        }
    } else if s[i] == QUOTE {
        scan(s, doc, step(i, s.len() as int, string_end(s, i + 1, false)), 0, mark, out)
    } else if s[i] == SLASH {
        if i + 1 >= s.len() {
            scan_finish(s, mark, out)
        } else if s[i + 1] == SLASH {
            scan(s, doc, step(i, s.len() as int, line_comment_end(s, i + 2)), 0, mark, out)
        } else if s[i + 1] == STAR {
            scan(s, doc, step(i, s.len() as int, block_comment_end(s, i + 2, 1)), 0, mark, out)
        } else {
            scan(s, doc, i + 1, 0, mark, out)
        }
    } else if s[i] == UNDERSCORE {
        if i + 1 >= s.len() {
            scan_finish(s, mark, out)
        } else if s[i + 1] == LOWER_B {
            scan_after(s, doc, i, blank_attempt(s, i, indent), mark, out)
        } else if s[i + 1] == LOWER_C {
            scan_after(s, doc, i, comment_attempt(s, i, indent), mark, out)
        } else {
            scan(s, doc, i + 1, 0, mark, out)
        }
    } else if s[i] == POUND && doc {
        scan_after(s, doc, i, doc_attempt(s, i, indent), mark, out)
    } else if s[i] == SPACE {
        scan(s, doc, i + 1, indent + 1, mark, out)
    } else {
        scan(s, doc, i + 1, 0, mark, out)
    }
}

/// Continue a scan after a marker attempt at `i`: a miss resumes ordinary
/// scanning, a hit flushes the verbatim bytes before the marker, appends
/// the rendered text and moves the copy mark past the marker, and a
/// malformed marker aborts the whole scan.
pub open spec fn scan_after(
    s: Seq<u8>,
    doc: bool,
    i: int,
    a: MarkerHit,
    mark: int,
    out: Seq<u8>,
) -> ScanOutcome
    decreases s.len() - i, 0int,
{
    if i >= s.len() {
        scan_finish(s, mark, out)
    } else {
        match a {
            MarkerHit::Miss(j) => scan(s, doc, step(i, s.len() as int, j), 0, mark, out),
            MarkerHit::Bad => ScanOutcome::Malformed,
            MarkerHit::Hit { start, end, text } => {
                let ni = step(i, s.len() as int, end);
                scan(s, doc, ni, 0, ni, flushed(s, out, mark, start) + text)
            },
        }
    }
}

/// The outcome of scanning `s` from the start.
pub open spec fn scan_text(s: Seq<u8>, doc: bool) -> ScanOutcome {
    scan(s, doc, 0, 0, 0, Seq::empty())
}

/// Rewrite every marker in `source` into its rendered form, skipping
/// string literals and comments so that marker-shaped text inside them is
/// never touched; doc blocks are rewritten only when `replace_doc_blocks`
/// holds. When no marker matches, the input is handed back as
/// [`Replaced::Unchanged`] and no buffer is built; a marker prefix whose
/// grammar never completes is an error.
pub fn replace_markers(source: &[u8], replace_doc_blocks: bool) -> (r: Result<Replaced, Error>)
    ensures
        (match r {
            Ok(Replaced::Unchanged) => scan_text(source@, replace_doc_blocks)
                == (ScanOutcome::Complete { out: source@, changed: false }),
            Ok(Replaced::Rewritten(v)) => scan_text(source@, replace_doc_blocks)
                == (ScanOutcome::Complete { out: v@, changed: true }),
            Err(_) => scan_text(source@, replace_doc_blocks) == ScanOutcome::Malformed,
        }),
{
    let n = s_len(source);
    let mut i: usize = 0;
    let mut indent: usize = 0;
    let mut mark: usize = 0;
    let mut buf: Vec<u8> = Vec::new();
    while i < n
        invariant
            n == source@.len(),
            0 <= i <= n,
            indent <= i,
            mark <= n,
            mark == 0 ==> buf@ == Seq::<u8>::empty(),
            scan(source@, replace_doc_blocks, i as int, indent as int, mark as int, buf@)
                == scan_text(source@, replace_doc_blocks),
        decreases n - i,
    {
        let ghost s0 = source@;
        let ghost i0 = i as int;
        let ghost ind0 = indent as int;
        let ghost mk0 = mark as int;
        let ghost out0 = buf@;
        let ghost state0 = scan(s0, replace_doc_blocks, i0, ind0, mk0, out0);
        let b = source[i];
        if b == LOWER_R {
            let (ok, k) = raw_string_entry(source, i + 1);
            if ok {
                let e = skip_raw_body(source, i + 2 + k, k);
                i = e;
            } else {
                i = i + 1 + k;
            }
            indent = 0;
            assert(state0 == scan(s0, replace_doc_blocks, i as int, 0, mk0, out0));
        } else if b == QUOTE {
            i = skip_string(source, i + 1);
            indent = 0;
            assert(state0 == scan(s0, replace_doc_blocks, i as int, 0, mk0, out0));
        } else if b == SLASH {
            if i + 1 >= n {
                i = n;
            } else if source[i + 1] == SLASH {
                i = skip_line_comment(source, i + 2);
                indent = 0;
            } else if source[i + 1] == STAR {
                i = skip_block_comment(source, i + 2);
                indent = 0;
            } else {
                i = i + 1;
                indent = 0;
            }
            assert(state0 == scan(s0, replace_doc_blocks, i as int, indent as int, mk0, out0));
        } else if b == UNDERSCORE {
            if i + 1 >= n {
                i = n;
                assert(state0 == scan(s0, replace_doc_blocks, i as int, indent as int, mk0, out0));
            } else if source[i + 1] == LOWER_B {
                let ghost a = blank_attempt(s0, i0, ind0);
                assert(state0 == scan_after(s0, replace_doc_blocks, i0, a, mk0, out0));
                match match_blank_marker(source, i, indent) {
                    Err(e) => {
                        assert(state0 == ScanOutcome::Malformed);
                        return Err(e);
                    },
                    Ok(MarkerOutcome::Miss { resume }) => {
                        i = resume;
                        indent = 0;
                        assert(state0 == scan(s0, replace_doc_blocks, i as int, 0, mk0, out0));
                    },
                    Ok(MarkerOutcome::Hit { start, end, text }) => {
                        if start > mark {
                            append_slice(&mut buf, &source[mark..start]);
                        }
                        append_slice(&mut buf, text.as_slice());
                        assert(buf@ =~= flushed(s0, out0, mk0, start as int) + text@);
                        i = end;
                        mark = end;
                        indent = 0;
                        assert(state0 == scan(s0, replace_doc_blocks, i as int, 0, mark as int, buf@));
                    },
                }
            } else if source[i + 1] == LOWER_C {
                let ghost a = comment_attempt(s0, i0, ind0);
                assert(state0 == scan_after(s0, replace_doc_blocks, i0, a, mk0, out0));
                match match_comment_marker(source, i, indent) {
                    Err(e) => {
                        assert(state0 == ScanOutcome::Malformed);
                        return Err(e);
                    },
                    Ok(MarkerOutcome::Miss { resume }) => {
                        i = resume;
                        indent = 0;
                        assert(state0 == scan(s0, replace_doc_blocks, i as int, 0, mk0, out0));
                    },
                    Ok(MarkerOutcome::Hit { start, end, text }) => {
                        if start > mark {
                            append_slice(&mut buf, &source[mark..start]);
                        }
                        append_slice(&mut buf, text.as_slice());
                        assert(buf@ =~= flushed(s0, out0, mk0, start as int) + text@);
                        i = end;
                        mark = end;
                        indent = 0;
                        assert(state0 == scan(s0, replace_doc_blocks, i as int, 0, mark as int, buf@));
                    },
                }
            } else {
                i = i + 1;
                indent = 0;
                assert(state0 == scan(s0, replace_doc_blocks, i as int, 0, mk0, out0));
            }
        } else if b == POUND && replace_doc_blocks {
            let ghost a = doc_attempt(s0, i0, ind0);
            assert(state0 == scan_after(s0, replace_doc_blocks, i0, a, mk0, out0));
            match match_doc_block(source, i, indent) {
                Err(e) => {
                    assert(state0 == ScanOutcome::Malformed);
                    return Err(e);
                },
                Ok(MarkerOutcome::Miss { resume }) => {
                    i = resume;
                    indent = 0;
                    assert(state0 == scan(s0, replace_doc_blocks, i as int, 0, mk0, out0));
                },
                Ok(MarkerOutcome::Hit { start, end, text }) => {
                    if start > mark {
                        append_slice(&mut buf, &source[mark..start]);
                    }
                    append_slice(&mut buf, text.as_slice());
                    assert(buf@ =~= flushed(s0, out0, mk0, start as int) + text@);
                    i = end;
                    mark = end;
                    indent = 0;
                    assert(state0 == scan(s0, replace_doc_blocks, i as int, 0, mark as int, buf@));
                },
            }
        } else if b == SPACE {
            i = i + 1;
            indent = indent + 1;
            assert(state0 == scan(s0, replace_doc_blocks, i as int, indent as int, mk0, out0));
        } else {
            i = i + 1;
            indent = 0;
            assert(state0 == scan(s0, replace_doc_blocks, i as int, 0, mk0, out0));
        }
    }
    assert(scan(source@, replace_doc_blocks, i as int, indent as int, mark as int, buf@)
        == scan_finish(source@, mark as int, buf@));
    if mark > 0 {
        append_slice(&mut buf, &source[mark..n]);
        Ok(Replaced::Rewritten(buf))
    } else {
        Ok(Replaced::Unchanged)
    }
}

/// The length of the input, bound once so every position fits in `usize`.
fn s_len(s: &[u8]) -> (r: usize)
    ensures
        r == s@.len(),
{
    s.len()
}

} // verus!
