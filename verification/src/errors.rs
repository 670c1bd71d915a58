use vstd::prelude::*;
use crate::text::{str_chars, u64_digits, extend_chars, chars_to_string, spec_num_digits};

verus! {

/// Surfaced failure conditions, one variant per condition of the taxonomy:
/// structural drift, lookup misses, cache staleness, transport failure.
#[derive(Debug, Clone, PartialEq)]
pub enum HnError {
    /// A listing document yielded no stories at all: the page structure may
    /// have changed. Carries the page number that was requested.
    EmptyPage(usize),
    /// No recognized profile field was found for the user.
    ProfileNotFound,
    /// The cached snapshot is older than the TTL allows.
    CacheExpired,
    /// The cache decoded to no stories at all.
    CacheEmpty,
    /// A network step failed; the payload names the failed step.
    Transport(String),
}

impl HnError {
    pub open spec fn spec_message(self) -> Seq<char> {
        match self {
            HnError::EmptyPage(page) => "no stories found on page "@ + spec_num_digits(
                page as int,
            ) + "; the page structure may have changed"@,
            HnError::ProfileNotFound => "user not found or has no public information"@,
            HnError::CacheExpired => "cache expired"@,
            HnError::CacheEmpty => "no stories in cache"@,
            HnError::Transport(msg) => msg@,
        }
    }

    /// Human-readable description of the error.
    pub fn message(&self) -> (r: String)
        ensures
            r@ == self.spec_message(),
    {
        match self {
            HnError::EmptyPage(page) => {
                let mut v = str_chars("no stories found on page ");
                let digits = u64_digits(*page as u64);
                extend_chars(&mut v, &digits);
                let tail = str_chars("; the page structure may have changed");
                extend_chars(&mut v, &tail);
                chars_to_string(&v)
            },
            HnError::ProfileNotFound => {
                let v = str_chars("user not found or has no public information");
                chars_to_string(&v)
            },
            HnError::CacheExpired => {
                let v = str_chars("cache expired");
                chars_to_string(&v)
            },
            HnError::CacheEmpty => {
                let v = str_chars("no stories in cache");
                chars_to_string(&v)
            },
            HnError::Transport(msg) => msg.clone(),
        }
    }
}

} // verus!
