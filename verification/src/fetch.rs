//! Repository Fetcher helpers: the clone url of a source, and the message a
//! completed fetch reports, with its verified decimal skill count.

use vstd::prelude::*;
use vstd::string::StringExecFns;
use crate::strutil::string_from_chars;

verus! {

/// The character of one decimal digit.
pub open spec fn digit_char(d: int) -> char {
    if d == 0 {
        '0'
    } else if d == 1 {
        '1'
    } else if d == 2 {
        '2'
    } else if d == 3 {
        '3'
    } else if d == 4 {
        '4'
    } else if d == 5 {
        '5'
    } else if d == 6 {
        '6'
    } else if d == 7 {
        '7'
    } else if d == 8 {
        '8'
    } else {
        '9'
    }
}

/// The decimal representation of a number, most significant digit first.
pub open spec fn dec_rep(n: nat) -> Seq<char>
    decreases n,
{
    if n < 10 {
        seq![digit_char(n as int)]
    } else {
        dec_rep(n / 10) + seq![digit_char((n % 10) as int)]
    }
}

/// One decimal digit, executably.
fn digit_exec(d: usize) -> (r: char)
    requires
        d < 10,
    ensures
        r == digit_char(d as int),
{
    if d == 0 {
        '0'
    } else if d == 1 {
        '1'
    } else if d == 2 {
        '2'
    } else if d == 3 {
        '3'
    } else if d == 4 {
        '4'
    } else if d == 5 {
        '5'
    } else if d == 6 {
        '6'
    } else if d == 7 {
        '7'
    } else if d == 8 {
        '8'
    } else {
        '9'
    }
}

/// The decimal text of a number.
pub fn usize_to_decimal(n: usize) -> (r: String)
    ensures
        r@ == dec_rep(n as nat),
{
    let mut low: Vec<char> = Vec::new();
    let mut m: usize = n;
    proof {
        assert(low@.reverse() =~= Seq::<char>::empty());
        assert(dec_rep(n as nat) + Seq::<char>::empty() =~= dec_rep(n as nat));
    }
    while m >= 10
        invariant
            dec_rep(n as nat) == dec_rep(m as nat) + low@.reverse(),
        decreases m,
    {
        let ghost m0 = m as nat;
        let d = m % 10;
        let ghost low0 = low@;
        low.push(digit_exec(d));
        m = m / 10;
        proof {
            assert(m0 >= 10);
            assert(dec_rep(m0) == dec_rep(m0 / 10) + seq![digit_char((m0 % 10) as int)]);
            assert(m as nat == m0 / 10);
            assert(d as int == m0 % 10);
            assert(low@.reverse() =~= seq![digit_char(d as int)] + low0.reverse());
            assert((dec_rep(m as nat) + seq![digit_char(d as int)]) + low0.reverse()
                =~= dec_rep(m as nat) + (seq![digit_char(d as int)] + low0.reverse()));
        }
    }
    let mut out: Vec<char> = Vec::new();
    out.push(digit_exec(m));
    proof {
        assert(out@ =~= dec_rep(m as nat));
    }
    while low.len() > 0
        invariant
            dec_rep(n as nat) == out@ + low@.reverse(),
        decreases low@.len(),
    {
        let ghost low0 = low@;
        let ghost out0 = out@;
        match low.pop() {
            Some(d) => {
                out.push(d);
            },
            None => {},
        }
        proof {
            assert(low0.reverse() =~= seq![low0.last()] + low@.reverse());
            assert(out@ =~= out0 + seq![low0.last()]);
            assert((out0 + seq![low0.last()]) + low@.reverse() =~= out0 + (seq![low0.last()]
                + low@.reverse()));
        }
    }
    proof {
        assert(low@.reverse() =~= Seq::<char>::empty());
        assert(out@ + low@.reverse() =~= out@);
    }
    string_from_chars(&out)
}

/// The clone url of a repository source.
pub fn repo_url_of(owner: &str, repo: &str) -> (r: String)
    ensures
        r@ == "https://github.com/"@ + owner@ + "/"@ + repo@ + ".git"@,
{
    let mut r = String::from_str("https://github.com/");
    r.append(owner);
    r.append("/");
    r.append(repo);
    r.append(".git");
    r
}

/// The message a completed fetch reports: the repository key and how many
/// skills the scan found.
pub fn fetch_message(key: &str, count: usize) -> (r: String)
    ensures
        r@ == "Fetched "@ + key@ + " ("@ + dec_rep(count as nat) + " skills)"@,
{
    let mut r = String::from_str("Fetched ");
    r.append(key);
    r.append(" (");
    let d = usize_to_decimal(count);
    r.append(d.as_str());
    r.append(" skills)");
    r
}

} // verus!
