use std::hash::DefaultHasher;
use std::hash::Hash;
use std::hash::Hasher;
use vstd::prelude::*;
use vstd::std_specs::hash::DefaultHasherAdditionalSpecFns;
use vstd::string::StrSliceExecFns;
use vstd::string::StringExecFns;

verus! {

/// Hasher state after `<String as Hash>::hash` has fed it the text `s`,
/// starting from state `state`.
pub uninterp spec fn text_feed(state: Seq<Seq<u8>>, s: Seq<char>) -> Seq<Seq<u8>>;

/// Relies on `<String as Hash>::hash` with std's `DefaultHasher`: the hasher
/// state afterwards depends on the state before and on the text alone.
#[verifier::external_body]
fn feed_text(s: &String, h: &mut DefaultHasher)
    ensures
        final(h)@ == text_feed(old(h)@, s@),
{
    s.hash(h);
}

/// The sixteen lower-case hexadecimal digits, in order.
pub open spec fn hex_digits() -> Seq<char> {
    "0123456789abcdef"@
}

/// `n` written in exactly `width` lower-case hexadecimal digits, most
/// significant first (higher digits are dropped, missing ones are `0`).
pub open spec fn hex_fixed(n: nat, width: nat) -> Seq<char>
    decreases width,
{
    if width == 0 {
        Seq::empty()
    } else {
        hex_fixed(n / 16, (width - 1) as nat).push(hex_digits()[(n % 16) as int])
    }
}

/// The hash of a long URL under std's default hasher.
pub open spec fn url_hash(long_url: Seq<char>) -> u64 {
    DefaultHasher::spec_finish(text_feed(Seq::empty(), long_url))
}

/// The short code of a long URL: its hash as sixteen hexadecimal digits.
pub open spec fn short_code_of(long_url: Seq<char>) -> Seq<char> {
    hex_fixed(url_hash(long_url) as nat, 16)
}

/// Renders `n` as sixteen lower-case hexadecimal digits.
pub fn hex16(n: u64) -> (r: String)
    ensures
        r@ == hex_fixed(n as nat, 16),
{
    let digits = "0123456789abcdef";
    proof {
        reveal_strlit("0123456789abcdef");
    }
    let mut acc = String::new();
    let mut cur: u64 = n;
    let mut k: usize = 0;
    while k < 16
        invariant
            k <= 16,
            digits@ == hex_digits(),
            digits@.len() == 16,
            hex_fixed(n as nat, 16) == hex_fixed(cur as nat, (16 - k) as nat) + acc@,
        decreases 16 - k,
    {
        let d: u64 = cur % 16;
        let piece = digits.substring_char(d as usize, d as usize + 1);
        proof {
            assert(piece@ =~= seq![hex_digits()[d as int]]);
            assert(hex_fixed(cur as nat, (16 - k) as nat) == hex_fixed(
                (cur / 16) as nat,
                (16 - k - 1) as nat,
            ).push(hex_digits()[d as int]));
            assert(hex_fixed(cur as nat, (16 - k) as nat) + acc@ =~= hex_fixed(
                (cur / 16) as nat,
                (16 - k - 1) as nat,
            ) + (piece@ + acc@));
        }
        acc = String::from_str(piece).concat(acc.as_str());
        cur = cur / 16;
        k = k + 1;
    }
    assert(hex_fixed(cur as nat, 0) + acc@ =~= acc@);
    acc
}

/// The short code of `long_url`: deterministic, total and free of side
/// effects.
pub fn cool_shortener(long_url: &String) -> (r: String)
    ensures
        r@ == short_code_of(long_url@),
{
    let mut h = DefaultHasher::new();
    feed_text(long_url, &mut h);
    let n = h.finish();
    hex16(n)
}

} // verus!
