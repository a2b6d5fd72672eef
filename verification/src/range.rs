//! Byte-range negotiation: parsing a `Range` header against a known file
//! size into the concrete byte window to serve, or a full-content decision.
//!
//! Only a single range of the form `bytes=start-end` (end optional) is in
//! scope. Anything else — multiple comma-separated ranges, a suffix range
//! with no start, stray characters, or a value too large for 64 bits — is
//! treated as a malformed header and ignored, falling back to full content,
//! as permissive HTTP semantics allow. A syntactically well-formed range
//! whose end lies before its start is ignored the same way. Only a range
//! that starts at or beyond the end of the file is a hard error.

use vstd::prelude::*;

verus! {

use crate::ServeError;

/// A parsed single byte range: the first byte offset, and the last byte
/// offset or `None` for "to the end of the file".
#[derive(Clone, Copy, Debug, PartialEq, Eq)]
pub struct ByteRange {
    pub start: u64,
    pub end: Option<u64>,
}

/// How to serve a file: everything (HTTP 200), or the inclusive byte window
/// `[start, end]` of a file of `total` bytes (HTTP 206).
#[derive(Clone, Copy, Debug, PartialEq, Eq)]
pub enum ServingPlan {
    Full { total: u64 },
    Partial { start: u64, end: u64, total: u64 },
}

/// Whether a character is a decimal digit.
pub open spec fn is_digit(c: char) -> bool {
    48 <= c as u32 && c as u32 <= 57
}

/// The numeric value of a digit character.
pub open spec fn digit_val(c: char) -> nat
    recommends
        is_digit(c),
{
    (c as u32 - 48) as nat
}

/// Whether every character of a sequence is a decimal digit.
pub open spec fn all_digits(s: Seq<char>) -> bool {
    forall|i: int| 0 <= i < s.len() ==> is_digit(#[trigger] s[i])
}

/// The value of a digit sequence read as a decimal number.
pub open spec fn dec_val(s: Seq<char>) -> nat
    recommends
        all_digits(s),
    decreases s.len(),
{
    if s.len() == 0 {
        0
    } else {
        dec_val(s.drop_last()) * 10 + digit_val(s.last())
    }
}

/// The position of the first `-` character, if any.
pub open spec fn dash_pos(s: Seq<char>) -> Option<int>
    decreases s.len(),
{
    if s.len() == 0 {
        None
    } else if s[0] == '-' {
        Some(0int)
    } else {
        match dash_pos(s.drop_first()) {
            None => None,
            Some(i) => Some(i + 1),
        }
    }
}

proof fn lemma_dash_pos_scan(s: Seq<char>, i: int)
    requires
        0 <= i <= s.len(),
        forall|k: int| 0 <= k < i ==> s[k] != '-',
    ensures
        i < s.len() && s[i] == '-' ==> dash_pos(s) == Some(i),
        i == s.len() ==> dash_pos(s) is None,
    decreases i,
{
    if i > 0 {
        let t = s.drop_first();
        assert(forall|k: int| 0 <= k < i - 1 ==> t[k] != '-');
        lemma_dash_pos_scan(t, i - 1);
        if i < s.len() && s[i] == '-' {
            assert(t[i - 1] == '-');
        }
    }
}

proof fn lemma_dec_val_prefix(s: Seq<char>, i: int)
    requires
        0 <= i <= s.len(),
    ensures
        dec_val(s.subrange(0, i)) <= dec_val(s),
    decreases s.len() - i,
{
    if i == s.len() {
        assert(s.subrange(0, i) =~= s);
    } else {
        assert(s.subrange(0, i + 1).drop_last() =~= s.subrange(0, i));
        assert(dec_val(s.subrange(0, i + 1)) == dec_val(s.subrange(0, i)) * 10 + digit_val(
            s.subrange(0, i + 1).last(),
        ));
        assert(dec_val(s.subrange(0, i)) * 10 >= dec_val(s.subrange(0, i)));
        lemma_dec_val_prefix(s, i + 1);
    }
}

/// What parsing a `Range` header value yields: `Some` exactly for
/// `bytes=<digits>-<digits?>` with both numbers fitting in 64 bits.
pub open spec fn spec_parse_range(h: Seq<char>) -> Option<ByteRange> {
    if h.len() <= 6 || h.subrange(0, 6) != seq!['b', 'y', 't', 'e', 's', '='] {
        None
    } else {
        let body = h.subrange(6, h.len() as int);
        match dash_pos(body) {
            None => None,
            Some(d) => {
                let s1 = body.subrange(0, d);
                let s2 = body.subrange(d + 1, body.len() as int);
                if s1.len() == 0 || !all_digits(s1) || dec_val(s1) > u64::MAX {
                    None
                } else if s2.len() == 0 {
                    Some(ByteRange { start: dec_val(s1) as u64, end: None })
                } else if all_digits(s2) && dec_val(s2) <= u64::MAX {
                    Some(ByteRange { start: dec_val(s1) as u64, end: Some(dec_val(s2) as u64) })
                } else {
                    None
                }
            },
        }
    }
}

/// Reads the character span `[from, to)` of `h` as a decimal number, or
/// `None` where a character is not a digit or the value does not fit.
fn parse_digits(h: &str, from: usize, to: usize, Ghost(n): Ghost<int>) -> (r: Option<u64>)
    requires
        0 <= from <= to <= n == h@.len(),
    ensures
        r is Some <==> all_digits(h@.subrange(from as int, to as int)) && dec_val(
            h@.subrange(from as int, to as int),
        ) <= u64::MAX,
        r is Some ==> r->0 == dec_val(h@.subrange(from as int, to as int)),
{
    let ghost seg: Seq<char> = h@.subrange(from as int, to as int);
    let mut val: u64 = 0;
    let mut j: usize = from;
    while j < to
        invariant
            0 <= from <= j <= to <= h@.len(),
            seg == h@.subrange(from as int, to as int),
            all_digits(h@.subrange(from as int, j as int)),
            val == dec_val(h@.subrange(from as int, j as int)),
        decreases to - j,
    {
        let c = h.get_char(j);
        let cv = c as u32;
        proof {
            assert(h@.subrange(from as int, j + 1).drop_last() =~= h@.subrange(
                from as int,
                j as int,
            ));
            assert(h@.subrange(from as int, j + 1).last() == h@[j as int]);
        }
        if !(48 <= cv && cv <= 57) {
            proof {
                assert(!is_digit(seg[j - from]));
            }
            return None;
        }
        let d = (cv - 48) as u64;
        if val > (u64::MAX - d) / 10 {
            proof {
                assert((u64::MAX - d) / 10 * 10 + (u64::MAX - d) % 10 == u64::MAX - d);
                assert(val * 10 >= ((u64::MAX - d) / 10 + 1) * 10) by (nonlinear_arith)
                    requires
                        val > (u64::MAX - d) / 10,
                ;
                assert(dec_val(h@.subrange(from as int, j + 1)) > u64::MAX);
                lemma_dec_val_prefix(seg, j + 1 - from);
                assert(seg.subrange(0, j + 1 - from) =~= h@.subrange(from as int, j + 1));
            }
            return None;
        }
        proof {
            assert(val * 10 <= (u64::MAX - d) / 10 * 10) by (nonlinear_arith)
                requires
                    val <= (u64::MAX - d) / 10,
            ;
            assert((u64::MAX - d) / 10 * 10 + (u64::MAX - d) % 10 == u64::MAX - d);
        }
        val = val * 10 + d;
        j = j + 1;
    }
    proof {
        assert(h@.subrange(from as int, j as int) == seg);
    }
    Some(val)
}

/// Parses a `Range` header value; `None` stands for "ignore the header".
pub fn parse_range_header(h: &str) -> (r: Option<ByteRange>)
    ensures
        r == spec_parse_range(h@),
{
    let ghost pre: Seq<char> = seq!['b', 'y', 't', 'e', 's', '='];
    let n = h.unicode_len();
    if n <= 6 {
        return None;
    }
    if !(h.get_char(0) == 'b' && h.get_char(1) == 'y' && h.get_char(2) == 't' && h.get_char(3)
        == 'e' && h.get_char(4) == 's' && h.get_char(5) == '=') {
        proof {
            assert(h@.subrange(0, 6) != pre) by {
                if h@.subrange(0, 6) == pre {
                    assert(h@.subrange(0, 6)[0] == h@[0]);
                    assert(h@.subrange(0, 6)[1] == h@[1]);
                    assert(h@.subrange(0, 6)[2] == h@[2]);
                    assert(h@.subrange(0, 6)[3] == h@[3]);
                    assert(h@.subrange(0, 6)[4] == h@[4]);
                    assert(h@.subrange(0, 6)[5] == h@[5]);
                }
            }
        }
        return None;
    }
    proof {
        assert(h@.subrange(0, 6) =~= pre);
    }
    let ghost body: Seq<char> = h@.subrange(6, h@.len() as int);
    let mut d: usize = 6;
    while d < n
        invariant
            n == h@.len(),
            6 <= d <= n,
            body == h@.subrange(6, h@.len() as int),
            forall|k: int| 6 <= k < d ==> h@[k] != '-',
        ensures
            6 <= d <= n,
            n == h@.len(),
            forall|k: int| 6 <= k < d ==> h@[k] != '-',
            d < n ==> h@[d as int] == '-',
        decreases n - d,
    {
        if h.get_char(d) == '-' {
            break ;
        }
        d = d + 1;
    }
    proof {
        assert(forall|k: int| 0 <= k < d - 6 ==> body[k] == h@[k + 6] && body[k] != '-');
        lemma_dash_pos_scan(body, d - 6);
        if d < n {
            assert(body[d - 6] == '-');
        }
    }
    if d == n {
        return None;
    }
    proof {
        assert(dash_pos(body) == Some(d - 6));
        assert(body.subrange(0, d - 6) =~= h@.subrange(6, d as int));
        assert(body.subrange(d - 6 + 1, body.len() as int) =~= h@.subrange(d + 1, n as int));
    }
    if d == 6 {
        proof {
            assert(body.subrange(0, 0).len() == 0);
        }
        return None;
    }
    let start = match parse_digits(h, 6, d, Ghost(n as int)) {
        None => {
            return None;
        },
        Some(v) => v,
    };
    if d + 1 == n {
        return Some(ByteRange { start, end: None });
    }
    let end = match parse_digits(h, d + 1, n, Ghost(n as int)) {
        None => {
            return None;
        },
        Some(v) => v,
    };
    Some(ByteRange { start, end: Some(end) })
}

/// What negotiation decides for a parsed range (or none) against a file of
/// `file_size` bytes.
pub open spec fn spec_negotiate(range: Option<ByteRange>, file_size: u64) -> Result<
    ServingPlan,
    ServeError,
> {
    match range {
        None => Ok(ServingPlan::Full { total: file_size }),
        Some(r) => {
            if r.start >= file_size {
                Err(ServeError::RangeNotSatisfiable)
            } else if r.end is Some && r.end.unwrap() < r.start {
                Ok(ServingPlan::Full { total: file_size })
            } else {
                let e = if r.end is Some && r.end.unwrap() < file_size - 1 {
                    r.end.unwrap()
                } else {
                    (file_size - 1) as u64
                };
                Ok(ServingPlan::Partial { start: r.start, end: e, total: file_size })
            }
        },
    }
}

/// Decides how to serve a file of `file_size` bytes given the parsed range
/// request, if any: no range means full content; a range starting at or past
/// the end of the file is unsatisfiable; an open or overshooting end is
/// clamped to the last byte; an end before the start is ignored.
pub fn negotiate(range: Option<ByteRange>, file_size: u64) -> (r: Result<ServingPlan, ServeError>)
    ensures
        r == spec_negotiate(range, file_size),
{
    match range {
        None => Ok(ServingPlan::Full { total: file_size }),
        Some(rg) => {
            if rg.start >= file_size {
                Err(ServeError::RangeNotSatisfiable)
            } else {
                match rg.end {
                    Some(e) => {
                        if e < rg.start {
                            Ok(ServingPlan::Full { total: file_size })
                        } else if e < file_size - 1 {
                            Ok(ServingPlan::Partial { start: rg.start, end: e, total: file_size })
                        } else {
                            Ok(
                                ServingPlan::Partial {
                                    start: rg.start,
                                    end: file_size - 1,
                                    total: file_size,
                                },
                            )
                        }
                    },
                    None => Ok(
                        ServingPlan::Partial {
                            start: rg.start,
                            end: file_size - 1,
                            total: file_size,
                        },
                    ),
                }
            }
        },
    }
}

/// What serving a request with an optional raw `Range` header yields.
pub open spec fn spec_plan_range(header: Option<Seq<char>>, file_size: u64) -> Result<
    ServingPlan,
    ServeError,
> {
    match header {
        None => spec_negotiate(None, file_size),
        Some(h) => spec_negotiate(spec_parse_range(h), file_size),
    }
}

/// Parses the raw `Range` header, if one was sent, and negotiates it against
/// the file size: a missing or malformed header falls back to full content.
pub fn plan_range(header: Option<&str>, file_size: u64) -> (r: Result<ServingPlan, ServeError>)
    ensures
        r == spec_plan_range(
            (match header {
                Some(h) => Some(h@),
                None => None,
            }),
            file_size,
        ),
{
    match header {
        None => negotiate(None, file_size),
        Some(h) => negotiate(parse_range_header(h), file_size),
    }
}

} // verus!

