//! Verified text rendering for the daemon's replies: decimal numbers,
//! column padding, and satoshi and BTC amounts.

use vstd::prelude::*;
use vstd::string::StringExecFns;

use crate::types::{Coin, Keychain};

verus! {

/// Satoshis in one BTC.
pub const SATS_PER_BTC: u64 = 100_000_000;

/// The digit character of `d`.
pub open spec fn digit_char(d: int) -> char {
    if d == 0 {
        '0'
    } else if d == 1 {
        '1'
    } else if d == 2 {
        '2'
    } else if d == 3 {
        '3'
    } else if d == 4 {
        '4'
    } else if d == 5 {
        '5'
    } else if d == 6 {
        '6'
    } else if d == 7 {
        '7'
    } else if d == 8 {
        '8'
    } else {
        '9'
    }
}

/// Decimal rendering of `n`, without leading zeros.
pub open spec fn spec_dec(n: nat) -> Seq<char>
    decreases n,
{
    if n < 10 {
        seq![digit_char(n as int)]
    } else {
        spec_dec(n / 10).push(digit_char((n % 10) as int))
    }
}

/// `n` spaces.
pub open spec fn spec_spaces(n: int) -> Seq<char>
    decreases n,
{
    if n <= 0 {
        Seq::empty()
    } else {
        spec_spaces(n - 1).push(' ')
    }
}

/// `n` zero characters.
pub open spec fn spec_zeros(n: int) -> Seq<char>
    decreases n,
{
    if n <= 0 {
        Seq::empty()
    } else {
        spec_zeros(n - 1).push('0')
    }
}

/// `s` left-aligned in a column of width `w`: spaces follow it.
pub open spec fn spec_pad_right(s: Seq<char>, w: int) -> Seq<char> {
    s + spec_spaces(w - s.len())
}

/// `s` right-aligned in a column of width `w`: spaces precede it.
pub open spec fn spec_pad_left(s: Seq<char>, w: int) -> Seq<char> {
    spec_spaces(w - s.len()) + s
}

/// `f` with its trailing decimal zeros removed (zero stays zero).
pub open spec fn strip_zeros(f: nat) -> nat
    decreases f,
{
    if f == 0 {
        0
    } else if f % 10 == 0 {
        strip_zeros(f / 10)
    } else {
        f
    }
}

/// An amount of satoshis rendered in BTC: the whole part, and, when the
/// fractional part is not zero, a point and the eight fractional digits
/// with trailing zeros trimmed.
pub open spec fn spec_btc(sats: nat) -> Seq<char> {
    let whole = sats / (SATS_PER_BTC as nat);
    let frac = sats % (SATS_PER_BTC as nat);
    if frac == 0 {
        spec_dec(whole)
    } else {
        spec_dec(whole) + seq!['.'] + spec_zeros(8 - spec_dec(frac).len()) + spec_dec(
            strip_zeros(frac),
        )
    }
}

/// The decimal digit as a one-character string.
fn digit_str(d: u64) -> (s: &'static str)
    requires
        d < 10,
    ensures
        s@ == seq![digit_char(d as int)],
{
    let s = if d == 0 {
        "0"
    } else if d == 1 {
        "1"
    } else if d == 2 {
        "2"
    } else if d == 3 {
        "3"
    } else if d == 4 {
        "4"
    } else if d == 5 {
        "5"
    } else if d == 6 {
        "6"
    } else if d == 7 {
        "7"
    } else if d == 8 {
        "8"
    } else {
        "9"
    };
    proof {
        reveal_strlit("0");
        reveal_strlit("1");
        reveal_strlit("2");
        reveal_strlit("3");
        reveal_strlit("4");
        reveal_strlit("5");
        reveal_strlit("6");
        reveal_strlit("7");
        reveal_strlit("8");
        reveal_strlit("9");
    }
    s
}

/// Decimal rendering of `n`.
pub fn u64_to_dec(n: u64) -> (s: String)
    ensures
        s@ == spec_dec(n as nat),
    decreases n,
{
    if n < 10 {
        String::from_str(digit_str(n))
    } else {
        let mut s = u64_to_dec(n / 10);
        s.append(digit_str(n % 10));
        proof {
            assert(s@ =~= spec_dec((n / 10) as nat).push(digit_char((n % 10) as int)));
        }
        s
    }
}

/// Appends spaces until the text fills a column of width `w`.
#[verifier::loop_isolation(false)]
pub fn pad_right(s: String, w: usize) -> (r: String)
    ensures
        r@ == spec_pad_right(s@, w as int),
{
    let ghost orig = s@;
    let n = s.as_str().unicode_len();
    let mut r = s;
    let pad: usize = if n < w {
        w - n
    } else {
        0
    };
    proof {
        assert(r@ + spec_spaces(0) =~= r@);
    }
    let mut k: usize = 0;
    while k < pad
        invariant
            0 <= k <= pad,
            r@ == orig + spec_spaces(k as int),
        decreases pad - k,
    {
        r.append(" ");
        proof {
            reveal_strlit(" ");
            assert(r@ =~= orig + spec_spaces(k + 1));
        }
        k += 1;
    }
    proof {
        if n >= w {
            assert(spec_spaces(w - orig.len()) =~= spec_spaces(0));
        }
        assert(r@ =~= spec_pad_right(orig, w as int));
    }
    r
}

/// Prepends spaces until the text fills a column of width `w`.
#[verifier::loop_isolation(false)]
pub fn pad_left(s: String, w: usize) -> (r: String)
    ensures
        r@ == spec_pad_left(s@, w as int),
{
    let n = s.as_str().unicode_len();
    let mut r = String::new();
    let mut k: usize = 0;
    proof {
        reveal_strlit(" ");
    }
    let pad: usize = if n < w {
        w - n
    } else {
        0
    };
    while k < pad
        invariant
            0 <= k <= pad,
            r@ == spec_spaces(k as int),
        decreases pad - k,
    {
        r.append(" ");
        proof {
            reveal_strlit(" ");
            assert(r@ =~= spec_spaces(k + 1));
        }
        k += 1;
    }
    r.append(s.as_str());
    proof {
        if n >= w {
            assert(spec_spaces(w - s@.len()) =~= Seq::<char>::empty());
        }
        assert(r@ =~= spec_pad_left(s@, w as int));
    }
    r
}

/// Powers of ten.
pub open spec fn pow10(k: nat) -> nat
    decreases k,
{
    if k == 0 {
        1
    } else {
        10 * pow10((k - 1) as nat)
    }
}

/// A number below `pow10(k)` prints in at most `k` digits.
pub proof fn lemma_dec_len_le(n: nat, k: nat)
    requires
        k >= 1,
        n < pow10(k),
    ensures
        spec_dec(n).len() <= k,
    decreases k,
{
    if n < 10 {
    } else {
        assert(pow10(k) == 10 * pow10((k - 1) as nat));
        assert(n >= 10);
        if k == 1 {
            assert(pow10(1) == 10 * pow10(0));
            assert(pow10(0) == 1);
            assert(false);
        }
        assert(10 * (n / 10) <= n);
        assert(n / 10 < pow10((k - 1) as nat));
        lemma_dec_len_le((n / 10) as nat, (k - 1) as nat);
    }
}

/// Eight digits suffice below one hundred million.
pub proof fn lemma_dec_len_le8(n: nat)
    requires
        n < 100_000_000,
    ensures
        spec_dec(n).len() <= 8,
{
    assert(pow10(0) == 1);
    assert(pow10(1) == 10);
    assert(pow10(2) == 100);
    assert(pow10(3) == 1000);
    assert(pow10(4) == 10000);
    assert(pow10(5) == 100000);
    assert(pow10(6) == 1000000);
    assert(pow10(7) == 10000000);
    assert(pow10(8) == 100000000);
    lemma_dec_len_le(n, 8);
}

/// An amount of satoshis rendered in BTC.
pub fn btc_string(sats: u64) -> (r: String)
    ensures
        r@ == spec_btc(sats as nat),
{
    let whole = sats / SATS_PER_BTC;
    let frac = sats % SATS_PER_BTC;
    if frac == 0 {
        u64_to_dec(whole)
    } else {
        let mut s = u64_to_dec(whole);
        s.append(".");
        proof {
            reveal_strlit(".");
            assert(s@ =~= spec_dec(whole as nat) + seq!['.']);
        }
        let df = u64_to_dec(frac);
        let dlen = df.as_str().unicode_len();
        proof {
            lemma_dec_len_le8(frac as nat);
        }
        let zeros: usize = 8 - dlen;
        let ghost base = s@;
        let mut z: usize = 0;
        while z < zeros
            invariant
                0 <= z <= zeros,
                s@ == base + spec_zeros(z as int),
            decreases zeros - z,
        {
            s.append("0");
            proof {
                reveal_strlit("0");
                assert(s@ =~= base + spec_zeros(z + 1));
            }
            z += 1;
        }
        let mut f = frac;
        while f % 10 == 0
            invariant
                f >= 1,
                strip_zeros(frac as nat) == strip_zeros(f as nat),
            decreases f,
        {
            f = f / 10;
        }
        let tail = u64_to_dec(f);
        s.append(tail.as_str());
        proof {
            assert(strip_zeros(f as nat) == f as nat);
            assert(s@ =~= spec_btc(sats as nat));
        }
        s
    }
}

/// An amount column: the number left-aligned to sixteen columns, then the
/// unit.
pub open spec fn spec_amount(v: nat, in_satoshis: bool) -> Seq<char> {
    if in_satoshis {
        spec_pad_right(spec_dec(v), 16) + " SAT"@
    } else {
        spec_pad_right(spec_btc(v), 16) + " BTC"@
    }
}

/// An amount column in the chosen unit.
pub fn amount_string(v: u64, in_satoshis: bool) -> (r: String)
    ensures
        r@ == spec_amount(v as nat, in_satoshis),
{
    if in_satoshis {
        let mut s = pad_right(u64_to_dec(v), 16);
        s.append(" SAT");
        s
    } else {
        let mut s = pad_right(btc_string(v), 16);
        s.append(" BTC");
        s
    }
}

/// The balance reply: in verbose form the total, confirmed and unconfirmed
/// amounts, each named and in the chosen unit; otherwise the total alone.
pub open spec fn spec_balance_reply(
    confirmed: nat,
    unconfirmed: nat,
    in_satoshis: bool,
    verbose: bool,
) -> Seq<char> {
    let total = (confirmed + unconfirmed) as nat;
    if verbose {
        if in_satoshis {
            "Total: "@ + spec_pad_right(spec_dec(total), 16) + " SAT, Confirmed: "@
                + spec_pad_right(spec_dec(confirmed), 16) + " SAT, Unconfirmed: "@
                + spec_pad_right(spec_dec(unconfirmed), 16) + " SAT"@
        } else {
            "Total: "@ + spec_pad_right(spec_btc(total), 16) + " BTC, Confirmed: "@
                + spec_pad_right(spec_btc(confirmed), 16) + " BTC, Unconfirmed: "@
                + spec_pad_right(spec_btc(unconfirmed), 16) + " BTC"@
        }
    } else {
        spec_amount(total, in_satoshis)
    }
}

/// Renders the balance reply.
pub fn balance_reply(confirmed: u64, unconfirmed: u64, in_satoshis: bool, verbose: bool) -> (r:
    String)
    requires
        confirmed + unconfirmed <= u64::MAX,
    ensures
        r@ == spec_balance_reply(confirmed as nat, unconfirmed as nat, in_satoshis, verbose),
{
    let total = confirmed + unconfirmed;
    if verbose {
        let mut s = String::from_str("Total: ");
        if in_satoshis {
            s.append(pad_right(u64_to_dec(total), 16).as_str());
            s.append(" SAT, Confirmed: ");
            s.append(pad_right(u64_to_dec(confirmed), 16).as_str());
            s.append(" SAT, Unconfirmed: ");
            s.append(pad_right(u64_to_dec(unconfirmed), 16).as_str());
            s.append(" SAT");
        } else {
            s.append(pad_right(btc_string(total), 16).as_str());
            s.append(" BTC, Confirmed: ");
            s.append(pad_right(btc_string(confirmed), 16).as_str());
            s.append(" BTC, Unconfirmed: ");
            s.append(pad_right(btc_string(unconfirmed), 16).as_str());
            s.append(" BTC");
        }
        s
    } else {
        amount_string(total, in_satoshis)
    }
}

/// The keychain column: the branch name right-aligned to eight columns.
pub open spec fn spec_keychain_col(kc: Keychain) -> Seq<char> {
    match kc {
        Keychain::Internal => "  change"@,
        Keychain::External => " receive"@,
    }
}

/// The confirmation column: the height right-aligned to seven columns,
/// or plain "unconfirmed".
pub open spec fn spec_confirmation_col(h: Option<u32>) -> Seq<char> {
    match h {
        Some(hh) => "confirmed at "@ + spec_pad_left(spec_dec(hh as nat), 7),
        None => "unconfirmed"@,
    }
}

/// One listed coin: amount, branch and index, confirmation.
pub open spec fn spec_coin_line(c: Coin, in_satoshis: bool) -> Seq<char> {
    spec_amount(c.value_sat as nat, in_satoshis) + " "@ + spec_keychain_col(c.keychain) + "/"@
        + spec_pad_right(spec_dec(c.derivation_index as nat), 3) + " "@ + spec_confirmation_col(
        c.confirmation_height,
    )
}

/// Renders one listed coin.
pub fn coin_line(c: &Coin, in_satoshis: bool) -> (r: String)
    ensures
        r@ == spec_coin_line(*c, in_satoshis),
{
    let mut s = amount_string(c.value_sat, in_satoshis);
    s.append(" ");
    match c.keychain {
        Keychain::Internal => s.append("  change"),
        Keychain::External => s.append(" receive"),
    }
    s.append("/");
    s.append(pad_right(u64_to_dec(c.derivation_index as u64), 3).as_str());
    s.append(" ");
    match c.confirmation_height {
        Some(h) => {
            s.append("confirmed at ");
            s.append(pad_left(u64_to_dec(h as u64), 7).as_str());
        },
        None => {
            s.append("unconfirmed");
        },
    }
    s
}

} // verus!
