//! Renderers: the literal replacement text a marker turns into, built from
//! its decoded payload and the detected line-ending style.

use vstd::prelude::*;

use crate::scan::{find_byte, CR, LF, SLASH, SPACE};

verus! {

/// The line-ending style found immediately after a marker; the rendered
/// replacement reuses it so the two styles are never mixed.
#[derive(Clone, Copy)]
pub enum LineEnding {
    /// A bare line feed.
    Lf,
    /// A carriage return followed by a line feed.
    CrLf,
}

/// The bytes of a line ending.
pub open spec fn le_bytes(le: LineEnding) -> Seq<u8> {
    match le {
        LineEnding::Lf => seq![LF],
        LineEnding::CrLf => seq![CR, LF],
    }
}

/// How many bytes the line ending occupies in the source.
pub open spec fn le_len(le: LineEnding) -> int {
    le_bytes(le).len() as int
}

/// Append one line ending to the output buffer.
pub fn push_ending(buf: &mut Vec<u8>, le: LineEnding)
    ensures
        final(buf)@ == old(buf)@ + le_bytes(le),
{
    match le {
        LineEnding::Lf => {
            buf.push(LF);
            assert(buf@ =~= old(buf)@ + le_bytes(le));
        },
        LineEnding::CrLf => {
            buf.push(CR);
            buf.push(LF);
            assert(buf@ =~= old(buf)@ + le_bytes(le));
        },
    }
}

/// `n` space bytes: the indentation reproduced in front of each rendered
/// comment or doc line.
pub open spec fn spaces(n: int) -> Seq<u8> {
    Seq::new(if n < 0 {
        0
    } else {
        n as nat
    }, |k: int| SPACE)
}

/// Append `n` spaces to the output buffer.
pub fn push_spaces(buf: &mut Vec<u8>, n: usize)
    ensures
        final(buf)@ == old(buf)@ + spaces(n as int),
{
    let mut k: usize = 0;
    assert(buf@ =~= buf@ + spaces(0));
    while k < n
        invariant
            0 <= k <= n,
            buf@ == old(buf)@ + spaces(k as int),
        decreases n - k,
    {
        buf.push(SPACE);
        assert(buf@ =~= old(buf)@ + spaces(k + 1));
        k = k + 1;
    }
}

/// `ending` repeated `n` times: the text a blank marker renders to.
pub open spec fn blank_text(n: int, le: LineEnding) -> Seq<u8>
    decreases n,
{
    if n <= 0 {
        Seq::empty()
    } else {
        blank_text(n - 1, le) + le_bytes(le)
    }
}

/// Append `n` blank lines (bare line endings) to the output buffer.
pub fn render_blank_lines(buf: &mut Vec<u8>, n: u32, le: LineEnding)
    ensures
        final(buf)@ == old(buf)@ + blank_text(n as int, le),
{
    let mut k: u32 = 0;
    assert(buf@ =~= buf@ + blank_text(0, le));
    while k < n
        invariant
            0 <= k <= n,
            buf@ == old(buf)@ + blank_text(k as int, le),
        decreases n - k,
    {
        push_ending(buf, le);
        assert(buf@ =~= old(buf)@ + blank_text(k + 1, le));
        k = k + 1;
    }
}

/// One rendered comment line: the indentation, then `//` for an empty line
/// or `// ` and the content otherwise, then the line ending.
pub open spec fn comment_line(ind: int, line: Seq<u8>, le: LineEnding) -> Seq<u8> {
    if line.len() == 0 {
        spaces(ind) + seq![SLASH, SLASH] + le_bytes(le)
    } else {
        spaces(ind) + seq![SLASH, SLASH, SPACE] + line + le_bytes(le)
    }
}

/// One rendered doc line: the indentation, then `///` and the content with
/// no space in between, then the line ending.
pub open spec fn doc_line(ind: int, line: Seq<u8>, le: LineEnding) -> Seq<u8> {
    spaces(ind) + seq![SLASH, SLASH, SLASH] + line + le_bytes(le)
}

/// A line of the decoded payload `c` starting at `p`: the bytes up to the
/// next line feed, with a carriage return directly before that line feed
/// stripped.
pub open spec fn payload_line(c: Seq<u8>, p: int, j: int) -> Seq<u8> {
    if j > p && c[j - 1] == CR {
        c.subrange(p, j - 1)
    } else {
        c.subrange(p, j)
    }
}

/// The comment lines rendered from the decoded payload `c` from position
/// `p` on: one line per payload line, split at line feeds, a trailing line
/// feed ending the last line.
pub open spec fn comment_body(ind: int, c: Seq<u8>, p: int, le: LineEnding) -> Seq<u8>
    decreases c.len() - p,
{
    if p < 0 || p >= c.len() {
        Seq::empty()
    } else {
        let j = find_byte(c, p, LF);
        if p <= j < c.len() {
            comment_line(ind, payload_line(c, p, j), le) + comment_body(ind, c, j + 1, le)
        } else {
            comment_line(ind, c.subrange(p, c.len() as int), le)
        }
    }
}

/// The doc lines rendered from the decoded payload `c` from position `p`
/// on.
pub open spec fn doc_body(ind: int, c: Seq<u8>, p: int, le: LineEnding) -> Seq<u8>
    decreases c.len() - p,
{
    if p < 0 || p >= c.len() {
        Seq::empty()
    } else {
        let j = find_byte(c, p, LF);
        if p <= j < c.len() {
            doc_line(ind, payload_line(c, p, j), le) + doc_body(ind, c, j + 1, le)
        } else {
            doc_line(ind, c.subrange(p, c.len() as int), le)
        }
    }
}

/// What a comment marker with decoded payload `c` renders to: a single bare
/// comment line when the payload is empty, else one comment line per
/// payload line.
pub open spec fn comment_text(ind: int, c: Seq<u8>, le: LineEnding) -> Seq<u8> {
    if c.len() == 0 {
        comment_line(ind, Seq::empty(), le)
    } else {
        comment_body(ind, c, 0, le)
    }
}

/// What a doc block with decoded payload `c` renders to: a single bare doc
/// line when the payload is empty, else one doc line per payload line.
pub open spec fn doc_text(ind: int, c: Seq<u8>, le: LineEnding) -> Seq<u8> {
    if c.len() == 0 {
        doc_line(ind, Seq::empty(), le)
    } else {
        doc_body(ind, c, 0, le)
    }
}

/// Append the bytes of `s` to the output buffer.
pub fn append_slice(buf: &mut Vec<u8>, s: &[u8])
    ensures
        final(buf)@ == old(buf)@ + s@,
{
    let ghost pre = buf@;
    let mut k: usize = 0;
    assert(buf@ =~= pre + s@.take(0));
    while k < s.len()
        invariant
            0 <= k <= s@.len(),
            buf@ == pre + s@.take(k as int),
        decreases s@.len() - k,
    {
        buf.push(s[k]);
        assert(buf@ =~= pre + s@.take(k + 1));
        k = k + 1;
    }
    assert(s@.take(s@.len() as int) =~= s@);
}

/// Append one comment line built from `line` to the output buffer.
fn push_comment_line(buf: &mut Vec<u8>, ind: usize, line: &[u8], le: LineEnding)
    ensures
        final(buf)@ == old(buf)@ + comment_line(ind as int, line@, le),
{
    push_spaces(buf, ind);
    buf.push(SLASH);
    buf.push(SLASH);
    if line.len() > 0 {
        buf.push(SPACE);
        append_slice(buf, line);
    }
    push_ending(buf, le);
    assert(buf@ =~= old(buf)@ + comment_line(ind as int, line@, le));
}

/// Append one doc line built from `line` to the output buffer.
fn push_doc_line(buf: &mut Vec<u8>, ind: usize, line: &[u8], le: LineEnding)
    ensures
        final(buf)@ == old(buf)@ + doc_line(ind as int, line@, le),
{
    push_spaces(buf, ind);
    buf.push(SLASH);
    buf.push(SLASH);
    buf.push(SLASH);
    append_slice(buf, line);
    push_ending(buf, le);
    assert(buf@ =~= old(buf)@ + doc_line(ind as int, line@, le));
}

/// Append the full comment rendering of the decoded payload `c`.
pub fn render_comment_text(buf: &mut Vec<u8>, ind: usize, c: &[u8], le: LineEnding)
    ensures
        final(buf)@ == old(buf)@ + comment_text(ind as int, c@, le),
{
    if c.len() == 0 {
        let empty: [u8; 0] = [];
        push_comment_line(buf, ind, &empty, le);
        return ;
    }
    let mut p: usize = 0;
    while p < c.len()
        invariant
            0 <= p <= c@.len(),
            c@.len() > 0,
            old(buf)@ + comment_body(ind as int, c@, 0, le) == buf@ + comment_body(
                ind as int,
                c@,
                p as int,
                le,
            ),
        decreases c@.len() - p,
    {
        let j = crate::scan::find_byte_from(c, p, LF);
        if j < c.len() {
            let end = if j > p && c[j - 1] == CR {
                j - 1
            } else {
                j
            };
            assert(c@.subrange(p as int, end as int) == payload_line(c@, p as int, j as int));
            push_comment_line(buf, ind, &c[p..end], le);
            assert(buf@ + comment_body(ind as int, c@, j + 1, le) =~= old(buf)@ + comment_body(
                ind as int,
                c@,
                0,
                le,
            ));
            p = j + 1;
        } else {
            push_comment_line(buf, ind, &c[p..c.len()], le);
            assert(comment_body(ind as int, c@, p as int, le) == comment_line(
                ind as int,
                c@.subrange(p as int, c@.len() as int),
                le,
            ));
            assert(buf@ =~= old(buf)@ + comment_body(ind as int, c@, 0, le));
            p = c.len();
        }
    }
    assert(buf@ + comment_body(ind as int, c@, p as int, le) =~= buf@);
}

/// Append the full doc rendering of the decoded payload `c`.
pub fn render_doc_text(buf: &mut Vec<u8>, ind: usize, c: &[u8], le: LineEnding)
    ensures
        final(buf)@ == old(buf)@ + doc_text(ind as int, c@, le),
{
    if c.len() == 0 {
        let empty: [u8; 0] = [];
        push_doc_line(buf, ind, &empty, le);
        return ;
    }
    let mut p: usize = 0;
    while p < c.len()
        invariant
            0 <= p <= c@.len(),
            c@.len() > 0,
            old(buf)@ + doc_body(ind as int, c@, 0, le) == buf@ + doc_body(
                ind as int,
                c@,
                p as int,
                le,
            ),
        decreases c@.len() - p,
    {
        let j = crate::scan::find_byte_from(c, p, LF);
        if j < c.len() {
            let end = if j > p && c[j - 1] == CR {
                j - 1
            } else {
                j
            };
            assert(c@.subrange(p as int, end as int) == payload_line(c@, p as int, j as int));
            push_doc_line(buf, ind, &c[p..end], le);
            assert(buf@ + doc_body(ind as int, c@, j + 1, le) =~= old(buf)@ + doc_body(
                ind as int,
                c@,
                0,
                le,
            ));
            p = j + 1;
        } else {
            push_doc_line(buf, ind, &c[p..c.len()], le);
            assert(doc_body(ind as int, c@, p as int, le) == doc_line(
                ind as int,
                c@.subrange(p as int, c@.len() as int),
                le,
            ));
            assert(buf@ =~= old(buf)@ + doc_body(ind as int, c@, 0, le));
            p = c.len();
        }
    }
    assert(buf@ + doc_body(ind as int, c@, p as int, le) =~= buf@);
}

} // verus!
