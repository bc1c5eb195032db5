//! Structured warnings with stable codes.
//!
//! Every recoverable condition (missing image, failed remote fetch, dropped
//! unsized img, renderer parse noise) is accumulated here as a structured
//! warning with a stable code.
//!
//! Warning codes:
//!   TP-1001  remote image download failed
//!   TP-1002  remote image zero-byte / undecodable
//!   TP-1003  asset exceeded --max-asset-bytes / redirect cap
//!   TP-1004  remote CSS fetch failed
//!   TP-1005  font / emoji download failed or exceeded limit
//!   TP-1006  unsized <img> dropped by renderer (auto-size injection failed)
//!   TP-1007  constrain_images skipped (no height available)
//!   TP-1008  blitz parse noise (aggregate count)
//!   TP-1009  multi-page output (try --fit or --page-size A3)
//!   TP-1010  no text or images — possible rendering failure
use vstd::prelude::*;
use crate::text::{chars_of, string_of};

verus! {

/// A single structured warning.
#[derive(Debug, Clone, PartialEq, Eq)]
pub struct Warning {
    pub code: &'static str,
    pub message: String,
}

impl Warning {
    pub open spec fn pair(&self) -> (Seq<char>, Seq<char>) {
        (self.code@, self.message@)
    }

    pub fn new(code: &'static str, message: &str) -> (r: Warning)
        ensures
            r.code == code,
            r.message@ == message@,
    {
        Warning { code, message: string_of(&chars_of(message)) }
    }
}

/// Accumulator for structured warnings, threaded through call sites as
/// `&mut Diagnostics`.
#[derive(Debug, Clone)]
pub struct Diagnostics {
    warnings: Vec<Warning>,
}

impl Diagnostics {
    /// The warnings collected so far, oldest first, as (code, message).
    pub closed spec fn view_warnings(&self) -> Seq<(Seq<char>, Seq<char>)> {
        self.warnings@.map_values(|w: Warning| w.pair())
    }

    pub fn new() -> (r: Diagnostics)
        ensures
            r.view_warnings() == Seq::<(Seq<char>, Seq<char>)>::empty(),
    {
        let r = Diagnostics { warnings: Vec::new() };
        assert(r.view_warnings() =~= Seq::<(Seq<char>, Seq<char>)>::empty());
        r
    }

    /// Appends a warning; earlier warnings keep their order.
    pub fn push(&mut self, code: &'static str, message: &str)
        ensures
            final(self).view_warnings() == old(self).view_warnings().push((code@, message@)),
    {
        let w = Warning::new(code, message);
        self.warnings.push(w);
        assert(self.view_warnings() =~= old(self).view_warnings().push((code@, message@)));
    }

    pub fn warnings(&self) -> (r: &[Warning])
        ensures
            r@.map_values(|w: Warning| w.pair()) == self.view_warnings(),
    {
        self.warnings.as_slice()
    }

    pub fn is_empty(&self) -> (r: bool)
        ensures
            r == (self.view_warnings().len() == 0),
    {
        self.warnings.len() == 0
    }

    pub fn len(&self) -> (r: usize)
        ensures
            r == self.view_warnings().len(),
    {
        self.warnings.len()
    }
}

impl Default for Diagnostics {
    fn default() -> (r: Diagnostics)
        ensures
            r.view_warnings() == Seq::<(Seq<char>, Seq<char>)>::empty(),
    {
        Diagnostics::new()
    }
}

/// Pushing a warning adds exactly one entry, at the end: the count grows
/// by one, the new entry is last and the earlier ones are unchanged.
pub proof fn lemma_push_appends(before: Seq<(Seq<char>, Seq<char>)>, after: Seq<(Seq<char>, Seq<char>)>, code: Seq<char>, message: Seq<char>)
    requires
        after == before.push((code, message)),
    ensures
        after.len() == before.len() + 1,
        after[before.len() as int] == (code, message),
        forall|i: int| 0 <= i < before.len() ==> after[i] == before[i],
{
}

} // verus!
