//! Hex text form of a fingerprint: rendering to exactly 16 lowercase digits
//! and parsing back, with the round trip proved exact.
use vstd::prelude::*;

verus! {

use vstd::string::StrSliceExecFns;
use vstd::string::StringExecFns;
use crate::Dhash;

/// Why a hex string failed to parse.
#[derive(Debug, Clone, Copy, PartialEq, Eq)]
pub enum HexParseError {
    /// The input held no characters at all.
    Empty,
    /// A character that is not a hexadecimal digit (an input of only a sign
    /// counts too).
    InvalidDigit,
    /// The digits name a value above the 64-bit range.
    Overflow,
}

pub open spec fn is_hex_digit(c: char) -> bool {
    ('0' as u32 <= c as u32 && c as u32 <= '9' as u32) || ('a' as u32 <= c as u32 && c as u32 <= 'f'
        as u32) || ('A' as u32 <= c as u32 && c as u32 <= 'F' as u32)
}

pub open spec fn hex_digit_value(c: char) -> int {
    if '0' as u32 <= c as u32 && c as u32 <= '9' as u32 {
        c as u32 - '0' as u32
    } else if 'a' as u32 <= c as u32 && c as u32 <= 'f' as u32 {
        c as u32 - 'a' as u32 + 10
    } else {
        c as u32 - 'A' as u32 + 10
    }
}

/// The lowercase digit character for a value in `[0, 16)`.
pub open spec fn hex_char_of(d: int) -> char {
    if d == 0 {
        '0'
    } else if d == 1 {
        '1'
    } else if d == 2 {
        '2'
    } else if d == 3 {
        '3'
    } else if d == 4 {
        '4'
    } else if d == 5 {
        '5'
    } else if d == 6 {
        '6'
    } else if d == 7 {
        '7'
    } else if d == 8 {
        '8'
    } else if d == 9 {
        '9'
    } else if d == 10 {
        'a'
    } else if d == 11 {
        'b'
    } else if d == 12 {
        'c'
    } else if d == 13 {
        'd'
    } else if d == 14 {
        'e'
    } else {
        'f'
    }
}

/// The `k`-th nibble of `h`, counting from the least significant.
pub open spec fn nibble_of(h: u64, k: int) -> int {
    ((h >> ((4 * k) as u64)) & 0xf) as int
}

/// The 16-character lowercase rendering of `h`, most significant nibble first.
pub open spec fn hex_render(h: u64) -> Seq<char> {
    Seq::new(16, |i: int| hex_char_of(nibble_of(h, 15 - i)))
}

/// The value named by a sequence of hex digits, most significant first.
pub open spec fn hex_value(s: Seq<char>) -> int
    decreases s.len(),
{
    if s.len() == 0 {
        0
    } else {
        16 * hex_value(s.drop_last()) + hex_digit_value(s.last())
    }
}

/// The input with an optional single leading plus sign removed.
pub open spec fn hex_body(s: Seq<char>) -> Seq<char> {
    if s.len() > 0 && s[0] == '+' {
        s.skip(1)
    } else {
        s
    }
}

pub open spec fn all_hex_digits(s: Seq<char>) -> bool {
    forall|k: int| 0 <= k < s.len() ==> is_hex_digit(#[trigger] s[k])
}

/// Whether a left-to-right scan of `s` crosses the 64-bit range while still
/// reading digits.
pub open spec fn hex_prefix_overflows(s: Seq<char>) -> bool {
    exists|j: int|
        0 <= j <= s.len() && all_hex_digits(#[trigger] s.take(j)) && hex_value(s.take(j))
            > u64::MAX
}

/// What parsing a hex string yields: the value of its digits, or the first
/// failure a left-to-right scan meets.
pub open spec fn parse_result(s: Seq<char>) -> Result<u64, HexParseError> {
    let body = hex_body(s);
    if s.len() == 0 {
        Err(HexParseError::Empty)
    } else if hex_prefix_overflows(body) {
        Err(HexParseError::Overflow)
    } else if body.len() == 0 || !all_hex_digits(body) {
        Err(HexParseError::InvalidDigit)
    } else {
        Ok(hex_value(body) as u64)
    }
}

proof fn lemma_hex_value_nonneg(s: Seq<char>)
    requires
        all_hex_digits(s),
    ensures
        hex_value(s) >= 0,
    decreases s.len(),
{
    if s.len() > 0 {
        assert(all_hex_digits(s.drop_last())) by {
            assert(forall|k: int| 0 <= k < s.len() - 1 ==> s.drop_last()[k] == s[k]);
        }
        lemma_hex_value_nonneg(s.drop_last());
    }
}

/// Reading further digits never shrinks the value.
proof fn lemma_hex_value_take_monotone(s: Seq<char>, j: int, m: int)
    requires
        0 <= j <= m <= s.len(),
        all_hex_digits(s.take(m)),
    ensures
        hex_value(s.take(j)) <= hex_value(s.take(m)),
    decreases m - j,
{
    if j < m {
        assert(all_hex_digits(s.take(m - 1))) by {
            assert(forall|k: int| 0 <= k < m - 1 ==> s.take(m - 1)[k] == s.take(m)[k]);
        }
        lemma_hex_value_take_monotone(s, j, m - 1);
        lemma_hex_value_nonneg(s.take(m - 1));
        assert(s.take(m).drop_last() =~= s.take(m - 1));
        assert(is_hex_digit(s.take(m)[m - 1]));
    }
}

/// If the digits stop at `p` without having crossed the 64-bit range, no
/// digit prefix at all crosses it.
proof fn lemma_no_prefix_overflow(s: Seq<char>, p: int, v: u64)
    requires
        0 <= p <= s.len(),
        all_hex_digits(s.take(p)),
        hex_value(s.take(p)) == v,
        p == s.len() || !is_hex_digit(s[p]),
    ensures
        !hex_prefix_overflows(s),
{
    assert forall|j: int|
        0 <= j <= s.len() && all_hex_digits(#[trigger] s.take(j)) implies hex_value(s.take(j))
        <= u64::MAX by {
        if j > p {
            assert(s.take(j)[p] == s[p]);
            assert(is_hex_digit(s[p]));
            assert(false);
        } else {
            lemma_hex_value_take_monotone(s, j, p);
        }
    }
}

/// Exec mirror of [`hex_digit_value`], rejecting non-digits.
fn hex_digit_of(c: char) -> (r: Option<u8>)
    ensures
        r is Some <==> is_hex_digit(c),
        r matches Some(d) ==> d == hex_digit_value(c) && d < 16,
{
    let u = c as u32;
    if 48 <= u && u <= 57 {
        Some((u - 48) as u8)
    } else if 97 <= u && u <= 102 {
        Some((u - 97 + 10) as u8)
    } else if 65 <= u && u <= 70 {
        Some((u - 65 + 10) as u8)
    } else {
        None
    }
}

/// The one-character string for a digit value in `[0, 16)`.
fn hex_digit_str(d: u64) -> (r: &'static str)
    requires
        d < 16,
    ensures
        r@.len() == 1,
        r@[0] == hex_char_of(d as int),
{
    match d {
        0 => {
            proof {
                reveal_strlit("0");
            }
            "0"
        },
        1 => {
            proof {
                reveal_strlit("1");
            }
            "1"
        },
        2 => {
            proof {
                reveal_strlit("2");
            }
            "2"
        },
        3 => {
            proof {
                reveal_strlit("3");
            }
            "3"
        },
        4 => {
            proof {
                reveal_strlit("4");
            }
            "4"
        },
        5 => {
            proof {
                reveal_strlit("5");
            }
            "5"
        },
        6 => {
            proof {
                reveal_strlit("6");
            }
            "6"
        },
        7 => {
            proof {
                reveal_strlit("7");
            }
            "7"
        },
        8 => {
            proof {
                reveal_strlit("8");
            }
            "8"
        },
        9 => {
            proof {
                reveal_strlit("9");
            }
            "9"
        },
        10 => {
            proof {
                reveal_strlit("a");
            }
            "a"
        },
        11 => {
            proof {
                reveal_strlit("b");
            }
            "b"
        },
        12 => {
            proof {
                reveal_strlit("c");
            }
            "c"
        },
        13 => {
            proof {
                reveal_strlit("d");
            }
            "d"
        },
        14 => {
            proof {
                reveal_strlit("e");
            }
            "e"
        },
        _ => {
            proof {
                reveal_strlit("f");
            }
            "f"
        },
    }
}

impl Dhash {
    /// Renders the fingerprint as exactly 16 lowercase hex characters,
    /// zero-padded on the left.
    #[verifier::loop_isolation(false)]
    pub fn to_hex(&self) -> (s: String)
        ensures
            s@ == hex_render(self.hash),
            s@.len() == 16,
    {
        let h = self.hash;
        let mut s = String::new();
        for j in 0..16usize
            invariant
                s@ == hex_render(h).take(j as int),
        {
            let shift: u64 = (4 * (15 - j)) as u64;
            let d: u64 = (h >> shift) & 0xf;
            proof {
                assert((h >> shift) & 0xf < 16) by (bit_vector);
                assert((4 * (15 - j as int)) as u64 == shift);
            }
            let ds = hex_digit_str(d);
            s.append(ds);
            proof {
                assert(hex_render(h)[j as int] == hex_char_of(nibble_of(h, 15 - j as int)));
                assert(s@ =~= hex_render(h).take(j as int + 1));
            }
        }
        proof {
            assert(s@ =~= hex_render(h));
        }
        s
    }

    /// Parses a hex string into a fingerprint: an optional leading plus sign,
    /// then hexadecimal digits of either case.  Reports the empty input, the
    /// first non-digit, or a value beyond 64 bits, exactly as
    /// [`parse_result`] describes.
    #[verifier::loop_isolation(false)]
    pub fn from_hex(s: &str) -> (r: Result<Self, HexParseError>)
        ensures
            (match parse_result(s@) {
                Ok(v) => r == Ok::<Dhash, HexParseError>((Dhash { hash: v })),
                Err(e) => r == Err::<Dhash, HexParseError>(e),
            }),
    {
        let n = s.unicode_len();
        if n == 0 {
            return Err(HexParseError::Empty);
        }
        let first = s.get_char(0);
        let off: usize = if first == '+' {
            1
        } else {
            0
        };
        let ghost body = hex_body(s@);
        proof {
            assert(s@.skip(0) =~= s@);
            assert(body =~= s@.skip(off as int));
        }
        if off == n {
            proof {
                assert(body.len() == 0);
                assert(body.take(0) =~= body);
                lemma_no_prefix_overflow(body, 0, 0);
            }
            return Err(HexParseError::InvalidDigit);
        }
        let mut acc: u64 = 0;
        let mut i: usize = off;
        while i < n
            invariant
                off <= i <= n,
                all_hex_digits(body.take(i - off)),
                acc == hex_value(body.take(i - off)),
            decreases n - i,
        {
            let c = s.get_char(i);
            proof {
                assert(body[i - off] == s@[i as int]);
            }
            match hex_digit_of(c) {
                None => {
                    proof {
                        lemma_no_prefix_overflow(body, i - off, acc);
                    }
                    return Err(HexParseError::InvalidDigit);
                },
                Some(d) => {
                    if acc >= 0x1000_0000_0000_0000 {
                        proof {
                            let j = i - off + 1;
                            assert(body.take(j).drop_last() =~= body.take(i - off));
                            assert(body.take(j)[j - 1] == c);
                            assert(all_hex_digits(body.take(j))) by {
                                assert(forall|k: int|
                                    0 <= k < j - 1 ==> body.take(j)[k] == body.take(i - off)[k]);
                            }
                            assert(hex_value(body.take(j)) == 16 * acc + hex_digit_value(c));
                            assert(hex_value(body.take(j)) > u64::MAX);
                        }
                        return Err(HexParseError::Overflow);
                    }
                    proof {
                        let j = i - off + 1;
                        assert(body.take(j).drop_last() =~= body.take(i - off));
                        assert(body.take(j)[j - 1] == c);
                        assert(all_hex_digits(body.take(j))) by {
                            assert(forall|k: int|
                                0 <= k < j - 1 ==> body.take(j)[k] == body.take(i - off)[k]);
                        }
                    }
                    acc = acc * 16 + (d as u64);
                    i = i + 1;
                },
            }
        }
        proof {
            assert(body.take(n - off) =~= body);
            lemma_no_prefix_overflow(body, n - off, acc);
        }
        Ok(Dhash { hash: acc })
    }
}

/// Each digit character names its own value again.
proof fn lemma_hex_char_value(d: int)
    requires
        0 <= d < 16,
    ensures
        is_hex_digit(hex_char_of(d)),
        hex_digit_value(hex_char_of(d)) == d,
        hex_char_of(d) != '+',
{
}

/// The rendered digits of the top `k` nibbles name exactly the top `k`
/// nibbles' value.
proof fn lemma_render_value(h: u64, k: int)
    requires
        0 <= k <= 16,
    ensures
        all_hex_digits(hex_render(h).take(k)),
        hex_value(hex_render(h).take(k)) == h >> ((4 * (16 - k)) as u64),
    decreases k,
{
    let s = hex_render(h);
    if k == 0 {
        assert(h >> 64u64 == 0) by (bit_vector);
    } else {
        lemma_render_value(h, k - 1);
        let sh: u64 = (4 * (16 - k)) as u64;
        assert(s.take(k).drop_last() =~= s.take(k - 1));
        assert(s.take(k)[k - 1] == hex_char_of(nibble_of(h, 16 - k)));
        assert((h >> sh) & 0xf < 16) by (bit_vector);
        lemma_hex_char_value(nibble_of(h, 16 - k));
        assert(all_hex_digits(s.take(k))) by {
            assert(forall|m: int| 0 <= m < k - 1 ==> s.take(k)[m] == s.take(k - 1)[m]);
        }
        assert((4 * (16 - (k - 1))) as u64 == sh + 4) by {
            assert(4 * (16 - (k - 1)) == 4 * (16 - k) + 4);
        }
        assert(16 * (h >> (sh + 4)) + ((h >> sh) & 0xf) == h >> sh) by (bit_vector)
            requires
                sh <= 60,
        ;
    }
}

/// Round trip: parsing the rendering of any fingerprint value yields that
/// value back, bit for bit.
pub proof fn lemma_parse_render_roundtrip(h: u64)
    ensures
        parse_result(hex_render(h)) == Ok::<u64, HexParseError>(h),
{
    let s = hex_render(h);
    lemma_render_value(h, 16);
    assert(s.take(16) =~= s);
    assert(h >> ((4 * (16 - 16)) as u64) == h) by (bit_vector);
    assert(s[0] == hex_char_of(nibble_of(h, 15)));
    assert((h >> 60u64) & 0xf < 16) by (bit_vector);
    lemma_hex_char_value(nibble_of(h, 15));
    assert(hex_body(s) == s);
    lemma_no_prefix_overflow(s, 16, h);
}

} // verus!
