//! Human-readable rendering of byte counts and of elapsed time.
//!
//! Byte counts use a decimal (base-1000) unit system: values under 1000
//! render as `"<n> B"`; larger values are scaled by repeated division by
//! 1000 through the suffixes k, M, G, T, P, E and rendered with exactly two
//! decimal digits, rounding half away from zero. Scaling keeps dividing
//! while the remaining value is at least 999,950, so that a value just under
//! a unit's rounding boundary is promoted to the next unit instead of
//! rendering as `"1000.00"` of the smaller one.

use vstd::prelude::*;

verus! {

/// The decimal digit character for a value below ten.
pub open spec fn digit_char(d: nat) -> char
    recommends
        d < 10,
{
    if d == 0 {
        '0'
    } else if d == 1 {
        '1'
    } else if d == 2 {
        '2'
    } else if d == 3 {
        '3'
    } else if d == 4 {
        '4'
    } else if d == 5 {
        '5'
    } else if d == 6 {
        '6'
    } else if d == 7 {
        '7'
    } else if d == 8 {
        '8'
    } else {
        '9'
    }
}

/// The decimal representation of a natural number, most significant digit
/// first, with no leading zeros (zero itself renders as "0").
pub open spec fn dec_rep(n: nat) -> Seq<char>
    decreases n,
{
    if n < 10 {
        seq![digit_char(n)]
    } else {
        dec_rep(n / 10).push(digit_char(n % 10))
    }
}

/// The value left after the scaling loop: divide by 1000 while at least
/// 999,950 remains.
pub open spec fn scaled_value(b: nat) -> nat
    decreases b,
{
    if b < 999_950 {
        b
    } else {
        scaled_value(b / 1000)
    }
}

/// How many times the scaling loop divides by 1000.
pub open spec fn scaled_index(b: nat) -> nat
    decreases b,
{
    if b < 999_950 {
        0
    } else {
        1 + scaled_index(b / 1000)
    }
}

/// The unit letter for a number of divisions by 1000.
pub open spec fn suffix_char(i: nat) -> char
    recommends
        i <= 5,
{
    if i == 0 {
        'k'
    } else if i == 1 {
        'M'
    } else if i == 2 {
        'G'
    } else if i == 3 {
        'T'
    } else if i == 4 {
        'P'
    } else {
        'E'
    }
}

/// What `format_byte_size` returns: `"<b> B"` below 1000, otherwise the
/// scaled value rounded to two decimal digits, a space, the unit letter,
/// and `B`.
pub open spec fn spec_format_byte_size(b: u64) -> Seq<char> {
    if b < 1000 {
        dec_rep(b as nat) + seq![' ', 'B']
    } else {
        let r = (scaled_value(b as nat) + 5) / 10;
        dec_rep(r / 100) + seq![
            '.',
            digit_char((r % 100) / 10),
            digit_char(r % 100 % 10),
            ' ',
            suffix_char(scaled_index(b as nat)),
            'B',
        ]
    }
}

proof fn lemma_scaled_index_u64(b: nat)
    requires
        b < 18446744073709551616,
    ensures
        scaled_index(b) <= 5,
{
    if b >= 999_950 {
        let b1 = b / 1000;
        assert(scaled_index(b) == 1 + scaled_index(b1));
        assert(b1 < 18446744073709552);
        if b1 >= 999_950 {
            let b2 = b1 / 1000;
            assert(scaled_index(b1) == 1 + scaled_index(b2));
            assert(b2 < 18446744073710);
            if b2 >= 999_950 {
                let b3 = b2 / 1000;
                assert(scaled_index(b2) == 1 + scaled_index(b3));
                assert(b3 < 18446744074);
                if b3 >= 999_950 {
                    let b4 = b3 / 1000;
                    assert(scaled_index(b3) == 1 + scaled_index(b4));
                    assert(b4 < 18446745);
                    if b4 >= 999_950 {
                        let b5 = b4 / 1000;
                        assert(scaled_index(b4) == 1 + scaled_index(b5));
                        assert(b5 < 18447);
                        assert(scaled_index(b5) == 0);
                    } else {
                        assert(scaled_index(b4) == 0);
                    }
                } else {
                    assert(scaled_index(b3) == 0);
                }
            } else {
                assert(scaled_index(b2) == 0);
            }
        } else {
            assert(scaled_index(b1) == 0);
        }
    } else {
        assert(scaled_index(b) == 0);
    }
}

fn digit_to_str(d: u64) -> (r: &'static str)
    requires
        d < 10,
    ensures
        r@ == seq![digit_char(d as nat)],
{
    if d == 0 {
        proof {
            reveal_strlit("0");
            assert("0"@ =~= seq![digit_char(0)]);
        }
        "0"
    } else if d == 1 {
        proof {
            reveal_strlit("1");
            assert("1"@ =~= seq![digit_char(1)]);
        }
        "1"
    } else if d == 2 {
        proof {
            reveal_strlit("2");
            assert("2"@ =~= seq![digit_char(2)]);
        }
        "2"
    } else if d == 3 {
        proof {
            reveal_strlit("3");
            assert("3"@ =~= seq![digit_char(3)]);
        }
        "3"
    } else if d == 4 {
        proof {
            reveal_strlit("4");
            assert("4"@ =~= seq![digit_char(4)]);
        }
        "4"
    } else if d == 5 {
        proof {
            reveal_strlit("5");
            assert("5"@ =~= seq![digit_char(5)]);
        }
        "5"
    } else if d == 6 {
        proof {
            reveal_strlit("6");
            assert("6"@ =~= seq![digit_char(6)]);
        }
        "6"
    } else if d == 7 {
        proof {
            reveal_strlit("7");
            assert("7"@ =~= seq![digit_char(7)]);
        }
        "7"
    } else if d == 8 {
        proof {
            reveal_strlit("8");
            assert("8"@ =~= seq![digit_char(8)]);
        }
        "8"
    } else {
        proof {
            reveal_strlit("9");
            assert("9"@ =~= seq![digit_char(9)]);
        }
        "9"
    }
}

/// The decimal rendering of an unsigned integer.
pub fn u64_to_string(n: u64) -> (s: String)
    ensures
        s@ == dec_rep(n as nat),
    decreases n,
{
    if n < 10 {
        String::from_str(digit_to_str(n))
    } else {
        let mut s = u64_to_string(n / 10);
        s.append(digit_to_str(n % 10));
        proof {
            assert(dec_rep((n / 10) as nat).push(digit_char((n % 10) as nat)) =~= dec_rep(
                (n / 10) as nat,
            ) + seq![digit_char((n % 10) as nat)]);
        }
        s
    }
}

fn suffix_to_str(i: u64) -> (r: &'static str)
    ensures
        r@ == seq![suffix_char(i as nat)],
{
    if i == 0 {
        proof {
            reveal_strlit("k");
            assert("k"@ =~= seq![suffix_char(0)]);
        }
        "k"
    } else if i == 1 {
        proof {
            reveal_strlit("M");
            assert("M"@ =~= seq![suffix_char(1)]);
        }
        "M"
    } else if i == 2 {
        proof {
            reveal_strlit("G");
            assert("G"@ =~= seq![suffix_char(2)]);
        }
        "G"
    } else if i == 3 {
        proof {
            reveal_strlit("T");
            assert("T"@ =~= seq![suffix_char(3)]);
        }
        "T"
    } else if i == 4 {
        proof {
            reveal_strlit("P");
            assert("P"@ =~= seq![suffix_char(4)]);
        }
        "P"
    } else {
        proof {
            reveal_strlit("E");
            assert("E"@ =~= seq![suffix_char(i as nat)]);
        }
        "E"
    }
}

/// Renders a byte count for the directory listing.
pub fn format_byte_size(bytes: u64) -> (s: String)
    ensures
        s@ == spec_format_byte_size(bytes),
{
    if bytes < 1000 {
        let mut s = u64_to_string(bytes);
        s.append(" B");
        proof {
            reveal_strlit(" B");
            assert(" B"@ =~= seq![' ', 'B']);
        }
        s
    } else {
        proof {
            lemma_scaled_index_u64(bytes as nat);
        }
        let mut v = bytes;
        let mut idx: u64 = 0;
        while v >= 999_950
            invariant
                999 <= v,
                scaled_value(bytes as nat) == scaled_value(v as nat),
                scaled_index(bytes as nat) == idx + scaled_index(v as nat),
                scaled_index(bytes as nat) <= 5,
            decreases v,
        {
            v = v / 1000;
            idx = idx + 1;
        }
        let r = (v + 5) / 10;
        let int_part = r / 100;
        let frac = r % 100;
        let mut s = u64_to_string(int_part);
        s.append(".");
        s.append(digit_to_str(frac / 10));
        s.append(digit_to_str(frac % 10));
        s.append(" ");
        s.append(suffix_to_str(idx));
        s.append("B");
        proof {
            reveal_strlit(".");
            reveal_strlit(" ");
            reveal_strlit("B");
            assert(s@ =~= spec_format_byte_size(bytes));
        }
        s
    }
}

/// What the default English "time ago" formatter says for an elapsed time of
/// a given number of seconds (for example, "2 days ago").
pub uninterp spec fn age_phrase_of(secs: u64) -> Seq<char>;

/// Relies on timeago::Formatter::convert with the default English settings:
/// the phrase is a pure function of the duration alone.
#[verifier::external_body]
pub(crate) fn format_age(secs: u64) -> (r: String)
    ensures
        r@ == age_phrase_of(secs),
{
    timeago::Formatter::new().convert(std::time::Duration::from_secs(secs))
}

/// Whether a character is a decimal digit.
pub open spec fn is_dec_digit(c: char) -> bool {
    48 <= c as u32 && c as u32 <= 57
}

proof fn lemma_dec_rep_nonempty(n: nat)
    ensures
        dec_rep(n).len() >= 1,
        forall|i: int| 0 <= i < dec_rep(n).len() ==> is_dec_digit(#[trigger] dec_rep(n)[i]),
    decreases n,
{
    if n >= 10 {
        lemma_dec_rep_nonempty(n / 10);
    }
}

/// Every byte count below 1000 renders as the plain count followed by
/// `" B"`, with no scaling and no decimal digits.
pub proof fn lemma_format_small(b: u64)
    requires
        b < 1000,
    ensures
        spec_format_byte_size(b) == dec_rep(b as nat) + seq![' ', 'B'],
{
}

/// Whether a character is one of the decimal unit letters.
pub open spec fn is_size_suffix(c: char) -> bool {
    c == 'k' || c == 'M' || c == 'G' || c == 'T' || c == 'P' || c == 'E'
}

/// Whether a string ends in `".DD <s>B"`: a dot, exactly two decimal
/// digits, a space, one of the unit letters k, M, G, T, P, E, and `B`.
pub open spec fn has_scaled_shape(s: Seq<char>) -> bool {
    &&& s.len() >= 7
    &&& s[s.len() - 1] == 'B'
    &&& is_size_suffix(s[s.len() - 2])
    &&& s[s.len() - 3] == ' '
    &&& is_dec_digit(s[s.len() - 4])
    &&& is_dec_digit(s[s.len() - 5])
    &&& s[s.len() - 6] == '.'
}

/// For every byte count of at least 1000, the formatted string is the
/// numeric part with exactly two decimal digits, then a space, one of the
/// unit letters, and `B`.
pub proof fn lemma_format_shape(b: u64)
    requires
        b >= 1000,
    ensures
        has_scaled_shape(spec_format_byte_size(b)),
{
    let r = (scaled_value(b as nat) + 5) / 10;
    lemma_dec_rep_nonempty(r / 100);
}

} // verus!
