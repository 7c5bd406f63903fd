//! Random identifiers.

use rand::distr::Alphanumeric;
use rand::{rng, Rng};
use vstd::prelude::*;

verus! {

pub open spec fn is_ascii_alphanumeric(c: char) -> bool {
    ('a' <= c && c <= 'z') || ('A' <= c && c <= 'Z') || ('0' <= c && c <= '9')
}

/// Samples `n` chars from `rand::distr::Alphanumeric` with the thread
/// RNG. rand documents the distribution as uniform over the ASCII
/// letters and digits; which chars come out is left open.
#[verifier::external_body]
fn random_alphanumeric(n: usize) -> (res: String)
    ensures
        res@.len() == n,
        forall|i: int| 0 <= i < n ==> is_ascii_alphanumeric(#[trigger] res@[i]),
{
    rng().sample_iter(&Alphanumeric).take(n).map(char::from).collect()
}

/// An identifier made of `prefix`, a dash and eight random ASCII
/// letters or digits.
pub fn make_id(prefix: &str) -> (res: String)
    ensures
        res@.len() == prefix@.len() + 9,
        res@.take(prefix@.len() as int) == prefix@,
        res@[prefix@.len() as int] == '-',
        forall|i: int|
            prefix@.len() + 1 <= i < res@.len() ==> is_ascii_alphanumeric(#[trigger] res@[i]),
{
    let r = random_alphanumeric(8);
    let mut id = String::from_str(prefix);
    id.append("-");
    proof {
        reveal_strlit("-");
    }
    id.append(r.as_str());
    assert(id@.take(prefix@.len() as int) =~= prefix@);
    assert forall|i: int| prefix@.len() + 1 <= i < id@.len() implies is_ascii_alphanumeric(
        #[trigger] id@[i],
    ) by {
        assert(id@[i] == r@[i - prefix@.len() - 1]);
    }
    id
}

} // verus!
