//! The `prettyplease` formatter behind the same post-processing options the
//! marker scanner serves: format first, then replace markers.
//!
//! One class of input is refused up front: sources that mention
//! `macro_rules` anywhere. `syn` parses a `macro_rules` definition with any
//! token stream as its body, but prettyplease's printer aborts on a body
//! that is not a sequence of `(matcher) => {expansion};` rules, and this
//! library's functions must return rather than abort. The verified guard
//! over-rejects (the keyword inside a string or comment also counts); every
//! refusal is an error, never a panic.

use vstd::prelude::*;

use crate::{post_process, post_processed, Error, PostProcess};

verus! {

/// The bytes of the `macro_rules` keyword.
pub open spec fn macro_rules_token() -> Seq<u8> {
    seq![109u8, 97u8, 99u8, 114u8, 111u8, 95u8, 114u8, 117u8, 108u8, 101u8, 115u8]
}

/// The `macro_rules` keyword stands at position `i` of `s`.
pub open spec fn token_at(s: Seq<u8>, i: int) -> bool {
    &&& 0 <= i
    &&& i + macro_rules_token().len() <= s.len()
    &&& (forall|k: int| 0 <= k < macro_rules_token().len() ==> s[i + k] == macro_rules_token()[k])
}

/// The `macro_rules` keyword occurs somewhere in `s`.
pub open spec fn mentions_macro_rules(s: Seq<u8>) -> bool {
    exists|i: int| token_at(s, i)
}

/// Whether the `macro_rules` keyword stands at `i`.
fn token_matches_at(s: &[u8], i: usize) -> (r: bool)
    requires
        i + 11 <= s@.len(),
    ensures
        r == token_at(s@, i as int),
{
    let n = s.len();
    let tok: [u8; 11] = [109, 97, 99, 114, 111, 95, 114, 117, 108, 101, 115];
    assert(tok@ =~= macro_rules_token());
    let mut k: usize = 0;
    while k < 11
        invariant
            0 <= k <= 11,
            n == s@.len(),
            i + 11 <= s@.len(),
            tok@ =~= macro_rules_token(),
            forall|m: int| 0 <= m < k ==> s@[i + m] == macro_rules_token()[m],
        decreases 11 - k,
    {
        if s[i + k] != tok[k] {
            assert(!token_at(s@, i as int));
            return false;
        }
        k = k + 1;
    }
    true
}

/// Whether `s` mentions the `macro_rules` keyword anywhere.
pub fn find_macro_rules(s: &[u8]) -> (r: bool)
    ensures
        r == mentions_macro_rules(s@),
{
    let n = s.len();
    if n < 11 {
        assert(forall|i: int| !token_at(s@, i));
        return false;
    }
    let mut i: usize = 0;
    while i <= n - 11
        invariant
            n == s@.len(),
            11 <= n,
            0 <= i <= n - 11 + 1,
            forall|j: int| 0 <= j < i ==> !token_at(s@, j),
        decreases n - i,
    {
        if token_matches_at(s, i) {
            assert(mentions_macro_rules(s@));
            return true;
        }
        i = i + 1;
    }
    assert(forall|j: int| i <= j ==> !token_at(s@, j));
    false
}

/// The pretty-printed form of `s` read as a Rust source file, or nothing
/// when `s` is not valid UTF-8 or does not parse.
pub uninterp spec fn pretty_printed(s: Seq<u8>) -> Option<Seq<u8>>;

/// Relies on `syn::parse_file` and `prettyplease::unparse`: parsing and
/// printing depend on the source bytes alone, and printing succeeds exactly
/// when parsing does. The precondition keeps out every source that could
/// hold a `macro_rules` definition (the definition needs the keyword in its
/// path, so a source without those bytes has none): prettyplease's
/// `macro_rules` printer aborts on a body that is not rule-shaped, while on
/// `macro_rules`-free parseable files its `verbatim` feature, which this
/// crate enables, prints every item form `syn` produces.
#[verifier::external_body]
fn parse_and_print(source: &[u8]) -> (r: Result<Vec<u8>, String>)
    requires
        !mentions_macro_rules(source@),
    ensures
        r is Ok <==> pretty_printed(source@) is Some,
        r is Ok ==> r.unwrap()@ == pretty_printed(source@).unwrap(),
{
    let text = match std::str::from_utf8(source) {
        Ok(text) => text,
        Err(e) => return Err(e.to_string()),
    };
    match syn::parse_file(text) {
        Ok(file) => Ok(prettyplease::unparse(&file).into_bytes()),
        Err(e) => Err(e.to_string()),
    }
}

/// This formatter uses `prettyplease` for formatting source code, then
/// applies the configured post-processing to the formatted text.
#[derive(Clone, Copy)]
pub struct PrettyPlease {
    /// The post-processing applied after formatting.
    pub post_proc: PostProcess,
}

impl PrettyPlease {
    /// A formatter with no post-processing.
    pub fn new() -> (r: Self)
        ensures
            r.post_proc == PostProcess::Disabled,
    {
        PrettyPlease { post_proc: PostProcess::Disabled }
    }

    /// A formatter with the given post-processing.
    pub fn with_post_process(post_proc: PostProcess) -> (r: Self)
        ensures
            r.post_proc == post_proc,
    {
        PrettyPlease { post_proc }
    }

    /// Format the given source text and post-process the result: an error
    /// when the text mentions `macro_rules` (see the module note), when it
    /// does not parse as a Rust source file, or when a marker in the
    /// formatted text is malformed.
    pub fn format_str(&self, source: &[u8]) -> (r: Result<Vec<u8>, Error>)
        ensures
            mentions_macro_rules(source@) ==> r is Err,
            !mentions_macro_rules(source@) ==> (match pretty_printed(source@) {
                Option::None => r is Err,
                Option::Some(f) => match r {
                    Ok(v) => post_processed(self.post_proc, f) == Some(v@),
                    Err(_) => post_processed(self.post_proc, f) is None,
                },
            }),
    {
        if find_macro_rules(source) {
            return Err(Error::BadSourceCode("macro_rules definitions are not supported".to_owned()));
        }
        match parse_and_print(source) {
            Err(m) => Err(Error::BadSourceCode(m)),
            Ok(f) => post_process(self.post_proc, f),
        }
    }
}

impl Default for PrettyPlease {
    /// A formatter with no post-processing.
    fn default() -> (r: Self)
        ensures
            r.post_proc == PostProcess::Disabled,
    {
        PrettyPlease::new()
    }
}

} // verus!
