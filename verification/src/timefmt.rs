//! Rendering accrued seconds as a zero-padded `HH:MM:SS` label (the hours
//! field simply grows wider past two digits).
use vstd::prelude::*;
use crate::digits::dec;
use crate::text::{push_char, push_dec};

verus! {

/// The decimal rendering of `n`, widened to at least two digits.
pub open spec fn pad2(n: nat) -> Seq<char> {
    if n < 10 {
        seq!['0'] + dec(n)
    } else {
        dec(n)
    }
}

/// The `HH:MM:SS` text for `t` whole seconds.
pub open spec fn time_text(t: nat) -> Seq<char> {
    pad2(t / 3600) + seq![':'] + pad2((t % 3600) / 60) + seq![':'] + pad2(t % 60)
}

/// Appends `n` as at least two digits.
fn push_pad2(out: &mut String, n: u64)
    ensures
        final(out)@ == old(out)@ + pad2(n as nat),
{
    if n < 10 {
        push_char(out, '0');
        push_dec(out, n);
        proof {
            assert(old(out)@ + seq!['0'] + dec(n as nat) =~= old(out)@ + pad2(n as nat));
        }
    } else {
        push_dec(out, n);
    }
}

/// The `HH:MM:SS` label for `total_seconds`: hours, minutes and seconds each
/// zero-padded to two digits and joined by colons.
pub fn format_time(total_seconds: u64) -> (r: String)
    ensures
        r@ == time_text(total_seconds as nat),
{
    let hours = total_seconds / 3600;
    let minutes = (total_seconds % 3600) / 60;
    let seconds = total_seconds % 60;
    let mut out = String::new();
    push_pad2(&mut out, hours);
    push_char(&mut out, ':');
    push_pad2(&mut out, minutes);
    push_char(&mut out, ':');
    push_pad2(&mut out, seconds);
    proof {
        let t = total_seconds as nat;
        assert(out@ =~= time_text(t));
    }
    out
}

} // verus!
