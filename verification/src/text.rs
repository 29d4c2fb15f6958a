//! Raw fixed-width name buffers: trimming at the first null byte, UTF-8
//! validation, and JSON string escaping of the trimmed bytes.

use vstd::prelude::*;

verus! {

/// Index of the first zero byte of `s`, or `s.len()` when there is none.
pub open spec fn first_nul(s: Seq<u8>) -> int
    decreases s.len(),
{
    if s.len() == 0 {
        0
    } else if s[0] == 0 {
        0
    } else {
        1 + first_nul(s.drop_first())
    }
}

/// `s` cut off at its first zero byte.
pub open spec fn trimmed(s: Seq<u8>) -> Seq<u8> {
    s.take(first_nul(s))
}

proof fn lemma_first_nul_is(s: Seq<u8>, i: int)
    requires
        0 <= i <= s.len(),
        forall|k: int| 0 <= k < i ==> s[k] != 0,
        i < s.len() ==> s[i] == 0,
    ensures
        first_nul(s) == i,
    decreases s.len(),
{
    if s.len() > 0 && i > 0 {
        assert(s[0] != 0);
        lemma_first_nul_is(s.drop_first(), i - 1);
    }
}

/// Returns `s` with the first null byte and everything after it removed.
pub fn trim_str(s: &[u8]) -> (r: &[u8])
    ensures
        r@ == trimmed(s@),
{
    let n = s.len();
    let mut i: usize = 0;
    while i < n
        invariant
            i <= n,
            n == s@.len(),
            forall|k: int| 0 <= k < i ==> s@[k] != 0,
        decreases n - i,
    {
        if s[i] == 0 {
            proof {
                lemma_first_nul_is(s@, i as int);
            }
            return vstd::slice::slice_subrange(s, 0, i);
        }
        i = i + 1;
    }
    proof {
        lemma_first_nul_is(s@, n as int);
        assert(s@.take(n as int) =~= s@);
    }
    s
}

/// Whether a byte sequence is valid UTF-8.
pub uninterp spec fn utf8_ok(b: Seq<u8>) -> bool;

/// Relies on core::str::from_utf8: whether a byte sequence is valid UTF-8 is
/// a function of the bytes alone.
#[verifier::external_body]
pub fn utf8_check(b: &[u8]) -> (r: bool)
    ensures
        r == utf8_ok(b@),
{
    core::str::from_utf8(b).is_ok()
}

/// Lowercase hexadecimal digit for `v < 16`.
pub open spec fn hex_digit(v: u8) -> u8 {
    if v < 10 {
        (48 + v) as u8
    } else {
        (87 + v) as u8
    }
}

/// How one byte of a JSON string is written: quote, backslash and control
/// bytes are escaped, every other byte stands for itself.
pub open spec fn escape_byte(b: u8) -> Seq<u8> {
    if b == 34 {
        seq![92u8, 34]
    } else if b == 92 {
        seq![92u8, 92]
    } else if b == 8 {
        seq![92u8, 98]
    } else if b == 9 {
        seq![92u8, 116]
    } else if b == 10 {
        seq![92u8, 110]
    } else if b == 12 {
        seq![92u8, 102]
    } else if b == 13 {
        seq![92u8, 114]
    } else if b < 32 {
        seq![92u8, 117, 48, 48, hex_digit(b / 16), hex_digit(b % 16)]
    } else {
        seq![b]
    }
}

/// The bytes of `s` written as the body of a JSON string.
pub open spec fn json_escaped(s: Seq<u8>) -> Seq<u8>
    decreases s.len(),
{
    if s.len() == 0 {
        Seq::<u8>::empty()
    } else {
        escape_byte(s[0]) + json_escaped(s.drop_first())
    }
}

proof fn lemma_json_escaped_snoc(s: Seq<u8>, x: u8)
    ensures
        json_escaped(s.push(x)) == json_escaped(s) + escape_byte(x),
    decreases s.len(),
{
    reveal_with_fuel(json_escaped, 3);
    if s.len() == 0 {
        assert(s.push(x).drop_first() =~= Seq::<u8>::empty());
        assert(json_escaped(s.push(x)) =~= json_escaped(s) + escape_byte(x));
    } else {
        assert(s.push(x).drop_first() =~= s.drop_first().push(x));
        lemma_json_escaped_snoc(s.drop_first(), x);
        assert(json_escaped(s.push(x)) =~= json_escaped(s) + escape_byte(x));
    }
}

/// Appends the JSON-escaped form of `s`.
pub fn push_escaped(out: &mut Vec<u8>, s: &[u8])
    ensures
        final(out)@ == old(out)@ + json_escaped(s@),
{
    let n = s.len();
    let mut i: usize = 0;
    proof {
        assert(out@ =~= old(out)@ + json_escaped(s@.take(0)));
    }
    while i < n
        invariant
            i <= n,
            n == s@.len(),
            out@ == old(out)@ + json_escaped(s@.take(i as int)),
        decreases n - i,
    {
        let b = s[i];
        if b == 34 {
            out.push(92);
            out.push(34);
        } else if b == 92 {
            out.push(92);
            out.push(92);
        } else if b == 8 {
            out.push(92);
            out.push(98);
        } else if b == 9 {
            out.push(92);
            out.push(116);
        } else if b == 10 {
            out.push(92);
            out.push(110);
        } else if b == 12 {
            out.push(92);
            out.push(102);
        } else if b == 13 {
            out.push(92);
            out.push(114);
        } else if b < 32 {
            out.push(92);
            out.push(117);
            out.push(48);
            out.push(48);
            let hi = b / 16;
            let lo = b % 16;
            out.push(if hi < 10 { 48 + hi } else { 87 + hi });
            out.push(if lo < 10 { 48 + lo } else { 87 + lo });
        } else {
            out.push(b);
        }
        proof {
            lemma_json_escaped_snoc(s@.take(i as int), s@[i as int]);
            assert(s@.take(i as int).push(s@[i as int]) =~= s@.take(i as int + 1));
            assert(out@ =~= old(out)@ + json_escaped(s@.take(i as int + 1)));
        }
        i = i + 1;
    }
    proof {
        assert(s@.take(n as int) =~= s@);
    }
}

} // verus!
