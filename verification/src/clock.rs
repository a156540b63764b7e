//! The fetch timestamp: seconds since the epoch, as decimal text.

use vstd::prelude::*;
use crate::fetch::{dec_rep, digit_char, usize_to_decimal};

verus! {

/// Whether every character of a sequence is a decimal digit.
pub open spec fn all_digits(s: Seq<char>) -> bool {
    forall|i: int| 0 <= i < s.len() ==> '0' <= #[trigger] s[i] <= '9'
}

/// A decimal representation is nonempty and all digits.
pub proof fn lemma_dec_rep_digits(n: nat)
    ensures
        dec_rep(n).len() > 0,
        all_digits(dec_rep(n)),
    decreases n,
{
    if n < 10 {
        assert('0' <= digit_char(n as int) <= '9');
    } else {
        lemma_dec_rep_digits(n / 10);
        assert('0' <= digit_char((n % 10) as int) <= '9');
        assert forall|i: int| 0 <= i < dec_rep(n).len() implies '0' <= #[trigger] dec_rep(n)[i]
            <= '9' by {
            if i < dec_rep(n / 10).len() {
                assert(dec_rep(n)[i] == dec_rep(n / 10)[i]);
            } else {
                assert(dec_rep(n)[i] == digit_char((n % 10) as int));
            }
        }
    }
}

/// Relies on `std::time::SystemTime::now` and `Duration::as_secs`: the
/// current time as whole seconds since the Unix epoch. The reading is
/// unspecified — nothing is promised of it; a clock before the epoch reads
/// as zero.
#[verifier::external_body]
fn epoch_seconds() -> (r: usize) {
    std::time::SystemTime::now()
        .duration_since(std::time::UNIX_EPOCH)
        .map_or(0, |d| d.as_secs()) as usize
}

/// The current time as a decimal-seconds timestamp string. Whatever the
/// clock reads, the text is its exact decimal representation: nonempty,
/// digits throughout.
pub fn chrono_now() -> (r: String)
    ensures
        r@.len() > 0,
        all_digits(r@),
        exists|n: nat| r@ == dec_rep(n),
{
    let secs = epoch_seconds();
    proof {
        lemma_dec_rep_digits(secs as nat);
    }
    usize_to_decimal(secs)
}

} // verus!
