//! Marker replacement for formatted Rust source text.
//!
//! Generated source text carries three kinds of textual placeholders: blank
//! markers (`_blank_!(n);`), comment markers (`_comment_!("...");`) and doc
//! blocks (`#[doc = "..."]`). A single pass over the bytes rewrites each
//! placeholder into its rendered form (blank lines, `//` comment lines or
//! `///` doc lines) while leaving alone any placeholder-shaped text that
//! sits inside a string literal or a comment. When nothing matches, the
//! input is handed back untouched and no buffer is ever built.

use vstd::prelude::*;

mod format;
pub mod laws;
pub mod literals;
pub mod markers;
pub mod render;
pub mod replace;
pub mod scan;

pub use format::PrettyPlease;
pub use replace::replace_markers;

use replace::{scan_text, ScanOutcome};

verus! {

/// A single scan either leaves the input untouched or produces a fresh
/// buffer; the two outcomes are kept apart so that a caller can tell
/// whether anything was replaced.
#[derive(Debug)]
pub enum Replaced {
    /// No marker matched: the input stands as it was, and no buffer exists.
    Unchanged,
    /// At least one marker matched: the rewritten text.
    Rewritten(Vec<u8>),
}

impl Replaced {
    /// The final text: the untouched input, or the rewritten buffer.
    pub fn into_text(self, source: &[u8]) -> (r: Vec<u8>)
        ensures
            (match self {
                Replaced::Unchanged => r@ == source@,
                Replaced::Rewritten(v) => r@ == v@,
            }),
    {
        match self {
            Replaced::Unchanged => vstd::slice::slice_to_vec(source),
            Replaced::Rewritten(v) => v,
        }
    }
}

/// The one error the scanner reports: text that begins like a marker or a
/// doc block but does not complete its grammar, or a payload literal that
/// does not parse. The string describes what was expected.
#[derive(Debug)]
pub enum Error {
    /// The source text holds a malformed marker, doc block or payload.
    BadSourceCode(String),
}

impl Error {
    /// The description of what went wrong.
    pub fn message(self) -> (r: String)
        ensures
            (match self {
                Error::BadSourceCode(m) => r@ == m@,
            }),
    {
        match self {
            Error::BadSourceCode(m) => m,
        }
    }
}

/// Post format processing options: optionally replace comment and blank
/// markers, and doc blocks.
#[derive(Clone, Copy, Debug)]
pub enum PostProcess {
    /// No post processing after formatting (the default).
    Disabled,
    /// Replace `_blank_!` and `_comment_!` markers.
    ReplaceMarkers,
    /// Replace `_blank_!` and `_comment_!` markers and `#[doc = ""]` (with
    /// `///`).
    ReplaceMarkersAndDocBlocks,
}

impl PostProcess {
    /// Whether blank and comment markers are replaced in the formatted
    /// source.
    pub open spec fn spec_replace_markers(self) -> bool {
        !(self is Disabled)
    }

    /// Returns true if blank and comment markers should be replaced in the
    /// formatted source or false if they should not be.
    pub fn replace_markers(self) -> (r: bool)
        ensures
            r == self.spec_replace_markers(),
    {
        match self {
            PostProcess::Disabled => false,
            PostProcess::ReplaceMarkers => true,
            PostProcess::ReplaceMarkersAndDocBlocks => true,
        }
    }

    /// Whether doc blocks are replaced in the formatted source.
    pub open spec fn spec_replace_doc_blocks(self) -> bool {
        self is ReplaceMarkersAndDocBlocks
    }

    /// Returns true if doc blocks should be replaced in the formatted
    /// source or false if they should not be.
    pub fn replace_doc_blocks(self) -> (r: bool)
        ensures
            r == self.spec_replace_doc_blocks(),
    {
        match self {
            PostProcess::Disabled => false,
            PostProcess::ReplaceMarkers => false,
            PostProcess::ReplaceMarkersAndDocBlocks => true,
        }
    }
}

impl Default for PostProcess {
    /// No post processing.
    fn default() -> (r: Self)
        ensures
            r == PostProcess::Disabled,
    {
        PostProcess::Disabled
    }
}

/// The Rust edition the source code uses.
#[derive(Clone, Copy, Debug)]
pub enum Edition {
    /// Rust 2015 edition.
    Rust2015,
    /// Rust 2018 edition.
    Rust2018,
    /// Rust 2021 edition.
    Rust2021,
}

impl Edition {
    /// The edition as the digits an external formatter expects.
    pub fn as_str(self) -> (r: &'static str)
        ensures
            (match self {
                Edition::Rust2015 => r@ == "2015"@,
                Edition::Rust2018 => r@ == "2018"@,
                Edition::Rust2021 => r@ == "2021"@,
            }),
    {
        match self {
            Edition::Rust2015 => "2015",
            Edition::Rust2018 => "2018",
            Edition::Rust2021 => "2021",
        }
    }
}

impl Default for Edition {
    /// The 2021 edition.
    fn default() -> (r: Self)
        ensures
            r == Edition::Rust2021,
    {
        Edition::Rust2021
    }
}

/// What post-processing makes of the formatted text `t`: the text itself
/// when marker replacement is off, the scanned rewrite when it is on, and
/// nothing when the scan finds a malformed marker.
pub open spec fn post_processed(p: PostProcess, t: Seq<u8>) -> Option<Seq<u8>> {
    if p.spec_replace_markers() {
        match scan_text(t, p.spec_replace_doc_blocks()) {
            ScanOutcome::Complete { out, changed } => Some(out),
            ScanOutcome::Malformed => None,
        }
    } else {
        Some(t)
    }
}

/// Apply the configured post-processing to formatted source text.
pub fn post_process(post_proc: PostProcess, source: Vec<u8>) -> (r: Result<Vec<u8>, Error>)
    ensures
        (match r {
            Ok(v) => post_processed(post_proc, source@) == Some(v@),
            Err(_) => post_processed(post_proc, source@) is None,
        }),
{
    if post_proc.replace_markers() {
        match replace::replace_markers(source.as_slice(), post_proc.replace_doc_blocks()) {
            Err(e) => Err(e),
            Ok(Replaced::Unchanged) => Ok(source),
            Ok(Replaced::Rewritten(v)) => Ok(v),
        }
    } else {
        Ok(source)
    }
}

} // verus!
