//! Small helpers shared by the modules.
use rand::distr::SampleString;
use vstd::prelude::*;

verus! {

pub open spec fn is_ascii_alphanumeric(c: char) -> bool {
    ('a' <= c && c <= 'z') || ('A' <= c && c <= 'Z') || ('0' <= c && c <= '9')
}

/// Relies on `rand::distr::Alphanumeric::sample_string` with the thread-local generator:
/// `length` characters drawn from `[A-Za-z0-9]`.
#[verifier::external_body]
pub fn generate_random_string(length: usize) -> (r: String)
    ensures
        r@.len() == length,
        forall|i: int| 0 <= i < r@.len() ==> is_ascii_alphanumeric(#[trigger] r@[i]),
{
    rand::distr::Alphanumeric.sample_string(&mut rand::rng(), length)
}

} // verus!
