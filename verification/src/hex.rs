//! Parsing hexadecimal color strings.

use vstd::prelude::*;

verus! {

/// True of an ASCII hexadecimal digit.
pub open spec fn is_hex_digit(c: char) -> bool {
    (48 <= c as u32 <= 57) || (65 <= c as u32 <= 70) || (97 <= c as u32 <= 102)
}

/// The numeric value of a hexadecimal digit.
pub open spec fn hex_digit_value(c: char) -> nat {
    if 48 <= c as u32 <= 57 {
        (c as u32 - 48) as nat
    } else if 65 <= c as u32 <= 70 {
        (c as u32 - 55) as nat
    } else if 97 <= c as u32 <= 102 {
        (c as u32 - 87) as nat
    } else {
        0
    }
}

/// The value of a big-endian string of hexadecimal digits.
pub open spec fn hex_value(s: Seq<char>) -> nat
    decreases s.len(),
{
    if s.len() == 0 {
        0
    } else {
        (hex_value(s.drop_last()) * 16 + hex_digit_value(s.last())) as nat
    }
}

/// Leading `0x` marks removed, one after another, as
/// `str::trim_start_matches("0x")` strips every repetition of the prefix.
pub open spec fn trim_hex_marks(s: Seq<char>) -> Seq<char>
    decreases s.len(),
{
    if s.len() >= 2 && s[0] == '0' && s[1] == 'x' {
        trim_hex_marks(s.skip(2))
    } else {
        s
    }
}

/// A string the parser accepts: one to eight hexadecimal digits after the
/// marks. Eight digits fill a `u32` exactly; anything longer could not.
pub open spec fn parses_as_hex(s: Seq<char>) -> bool {
    let t = trim_hex_marks(s);
    &&& 1 <= t.len() <= 8
    &&& forall|k: int| 0 <= k < t.len() ==> is_hex_digit(#[trigger] t[k])
}

/// Sixteen to the power `n`.
pub open spec fn pow16(n: nat) -> nat
    decreases n,
{
    if n == 0 {
        1
    } else {
        16 * pow16((n - 1) as nat)
    }
}

proof fn lemma_pow16_le(m: nat, n: nat)
    requires
        m <= n,
    ensures
        pow16(m) <= pow16(n),
    decreases n,
{
    if m < n {
        lemma_pow16_le(m, (n - 1) as nat);
    }
}

/// Parses a string of hexadecimal digits, with any leading `0x` marks
/// removed first, into the number they denote.
pub fn hex_to_int(hex_str: &str) -> (r: u32)
    requires
        parses_as_hex(hex_str@),
    ensures
        r as nat == hex_value(trim_hex_marks(hex_str@)),
{
    let ghost s = hex_str@;
    let len = hex_str.unicode_len();
    let mut start: usize = 0;
    proof {
        assert(s.skip(0) =~= s);
    }
    while len - start >= 2 && hex_str.get_char(start) == '0' && hex_str.get_char(start + 1) == 'x'
        invariant
            hex_str@ == s,
            len == s.len(),
            0 <= start <= len,
            trim_hex_marks(s) == trim_hex_marks(s.skip(start as int)),
        decreases len - start,
    {
        proof {
            assert(s.skip(start as int).len() >= 2);
            assert(s.skip(start as int)[0] == s[start as int]);
            assert(s.skip(start as int)[1] == s[start as int + 1]);
            assert(s.skip(start as int).skip(2) =~= s.skip(start as int + 2));
        }
        start = start + 2;
    }
    proof {
        assert(trim_hex_marks(s.skip(start as int)) == s.skip(start as int));
        assert(trim_hex_marks(s) == s.skip(start as int));
        assert(1 <= len - start <= 8);
        lemma_pow16_le(((len - start) as nat), 8);
        assert(pow16(8) == 0x100000000) by {
            reveal_with_fuel(pow16, 9);
        }
    }
    let mut acc: u32 = 0;
    let mut i: usize = start;
    while i < len
        invariant
            hex_str@ == s,
            len == s.len(),
            start <= i <= len,
            1 <= len - start <= 8,
            trim_hex_marks(s) == s.skip(start as int),
            forall|k: int|
                0 <= k < len - start ==> is_hex_digit(#[trigger] s.skip(start as int)[k]),
            acc as nat == hex_value(s.subrange(start as int, i as int)),
            (acc as nat) < pow16((i - start) as nat),
            pow16(8) == 0x100000000,
        decreases len - i,
    {
        let c = hex_str.get_char(i);
        proof {
            assert(s.skip(start as int)[i - start] == s[i as int]);
            assert(is_hex_digit(c));
        }
        let cv: u32 = c as u32;
        let digit: u32 = if cv >= 97 {
            cv - 87
        } else if cv >= 65 {
            cv - 55
        } else {
            cv - 48
        };
        proof {
            assert(digit as nat == hex_digit_value(c));
            lemma_pow16_le(((i + 1 - start) as nat), 8);
            assert(pow16((i + 1 - start) as nat) == 16 * pow16((i - start) as nat));
            let prefix = s.subrange(start as int, i as int + 1);
            assert(prefix.drop_last() =~= s.subrange(start as int, i as int));
            assert(prefix.last() == s[i as int]);
        }
        acc = acc * 16 + digit;
        i = i + 1;
    }
    proof {
        assert(s.subrange(start as int, len as int) =~= s.skip(start as int));
    }
    acc
}

} // verus!
