//! Human-readable renderings of quantities.
use vstd::prelude::*;

verus! {

/// The decimal digit for `d` (below ten).
pub open spec fn digit_char(d: nat) -> char {
    seq!['0', '1', '2', '3', '4', '5', '6', '7', '8', '9'][d as int]
}

/// The decimal spelling of `n`, without leading zeros.
pub open spec fn decimal_text(n: nat) -> Seq<char>
    decreases n,
{
    if n < 10 {
        seq![digit_char(n)]
    } else {
        decimal_text(n / 10).push(digit_char(n % 10))
    }
}

/// Spells `n` in decimal.
pub fn decimal(n: u64) -> (r: String)
    ensures
        r@ == decimal_text(n as nat),
    decreases n,
{
    let digits = "0123456789";
    proof {
        reveal_strlit("0123456789");
        assert(digits@ =~= seq!['0', '1', '2', '3', '4', '5', '6', '7', '8', '9']);
    }
    let d = (n % 10) as usize;
    if n < 10 {
        String::from_str(digits.substring_char(d, d + 1))
    } else {
        let mut s = decimal(n / 10);
        s.append(digits.substring_char(d, d + 1));
        s
    }
}

/// An uptime as days, hours and minutes, leaving out leading zero units:
/// `2d 3h 4m`, `3h 4m` or `4m`.
pub open spec fn uptime_text(secs: nat) -> Seq<char> {
    let days = secs / 86400;
    let hours = (secs % 86400) / 3600;
    let mins = (secs % 3600) / 60;
    if days > 0 {
        decimal_text(days) + "d "@ + decimal_text(hours) + "h "@ + decimal_text(mins) + "m"@
    } else if hours > 0 {
        decimal_text(hours) + "h "@ + decimal_text(mins) + "m"@
    } else {
        decimal_text(mins) + "m"@
    }
}

/// Renders an uptime given in seconds.
pub fn fmt_uptime(secs: u64) -> (r: String)
    ensures
        r@ == uptime_text(secs as nat),
{
    let days = secs / 86400;
    let hours = (secs % 86400) / 3600;
    let mins = (secs % 3600) / 60;
    let mut out = String::new();
    if days > 0 {
        out.append(decimal(days).as_str());
        out.append("d ");
        out.append(decimal(hours).as_str());
        out.append("h ");
    } else if hours > 0 {
        out.append(decimal(hours).as_str());
        out.append("h ");
    }
    out.append(decimal(mins).as_str());
    out.append("m");
    proof {
        assert(Seq::<char>::empty() + decimal_text(mins as nat) =~= decimal_text(mins as nat));
    }
    out
}

} // verus!
