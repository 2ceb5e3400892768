//! Decimal and hexadecimal integers as text: the parsing rules of
//! `str::parse`/`from_str_radix` and decimal formatting.
use vstd::prelude::*;

verus! {

/// Value of a digit character in the given radix (10 or 16), if it is one.
pub open spec fn digit_value(c: char, radix: int) -> Option<int> {
    if '0' <= c && c <= '9' {
        Some(c as int - '0' as int)
    } else if radix == 16 && 'a' <= c && c <= 'f' {
        Some(c as int - 'a' as int + 10)
    } else if radix == 16 && 'A' <= c && c <= 'F' {
        Some(c as int - 'A' as int + 10)
    } else {
        None
    }
}

pub open spec fn all_digits(d: Seq<char>, radix: int) -> bool {
    forall|i: int| 0 <= i < d.len() ==> #[trigger] digit_value(d[i], radix) is Some
}

/// Value of a digit string (most significant digit first).
pub open spec fn digits_val(d: Seq<char>, radix: int) -> int
    decreases d.len(),
{
    if d.len() == 0 {
        0
    } else {
        digits_val(d.drop_last(), radix) * radix + digit_value(d.last(), radix).unwrap()
    }
}

/// The integer that Rust's `from_str_radix` reads from `s` for an integer type
/// with the range `min..=max` (signed types accept a leading `-`, all accept `+`).
pub open spec fn parse_int_spec(s: Seq<char>, signed: bool, min: int, max: int, radix: int) -> Option<int> {
    if s.len() == 0 {
        None
    } else {
        let neg = signed && s[0] == '-';
        let d = if s[0] == '+' || neg {
            s.drop_first()
        } else {
            s
        };
        if d.len() == 0 || !all_digits(d, radix) {
            None
        } else {
            let v = if neg {
                -digits_val(d, radix)
            } else {
                digits_val(d, radix)
            };
            if min <= v && v <= max {
                Some(v)
            } else {
                None
            }
        }
    }
}

pub proof fn lemma_digits_val_nonneg(d: Seq<char>, radix: int)
    requires
        all_digits(d, radix),
        radix == 10 || radix == 16,
    ensures
        digits_val(d, radix) >= 0,
    decreases d.len(),
{
    if d.len() > 0 {
        assert(digit_value(d[d.len() - 1], radix) is Some);
        assert(all_digits(d.drop_last(), radix)) by {
            assert forall|i: int| 0 <= i < d.drop_last().len() implies #[trigger] digit_value(
                d.drop_last()[i],
                radix,
            ) is Some by {
                assert(d.drop_last()[i] == d[i]);
            }
        }
        lemma_digits_val_nonneg(d.drop_last(), radix);
    }
}

pub proof fn lemma_digits_val_mono(d: Seq<char>, radix: int)
    requires
        all_digits(d, radix),
        radix == 10 || radix == 16,
        d.len() > 0,
    ensures
        digits_val(d, radix) >= digits_val(d.drop_last(), radix) * radix,
        digits_val(d, radix) >= digits_val(d.drop_last(), radix),
{
    assert(digit_value(d[d.len() - 1], radix) is Some);
    assert(all_digits(d.drop_last(), radix)) by {
        assert forall|i: int| 0 <= i < d.drop_last().len() implies #[trigger] digit_value(
            d.drop_last()[i],
            radix,
        ) is Some by {
            assert(d.drop_last()[i] == d[i]);
        }
    }
    lemma_digits_val_nonneg(d.drop_last(), radix);
}

fn digit_of(c: char, radix: u64) -> (r: Option<u64>)
    requires
        radix == 10 || radix == 16,
    ensures
        r matches Some(v) ==> digit_value(c, radix as int) == Some(v as int) && v < radix,
        r is None ==> digit_value(c, radix as int) is None,
{
    if '0' <= c && c <= '9' {
        Some((c as u32 - '0' as u32) as u64)
    } else if radix == 16 && 'a' <= c && c <= 'f' {
        Some((c as u32 - 'a' as u32 + 10) as u64)
    } else if radix == 16 && 'A' <= c && c <= 'F' {
        Some((c as u32 - 'A' as u32 + 10) as u64)
    } else {
        None
    }
}

/// Magnitude of the digits `v[from..]` if it is at most `limit`.
fn digits_upto(v: &Vec<char>, from: usize, radix: u64, limit: u64) -> (r: Option<u64>)
    requires
        from <= v.len(),
        radix == 10 || radix == 16,
    ensures
        ({
            let d = v@.skip(from as int);
            match r {
                Some(m) => all_digits(d, radix as int) && digits_val(d, radix as int) == m && m
                    <= limit,
                None => !all_digits(d, radix as int) || digits_val(d, radix as int) > limit,
            }
        }),
{
    let ghost d = v@.skip(from as int);
    let mut acc: u64 = 0;
    let mut i: usize = from;
    let mut over = false;
    while i < v.len()
        invariant
            from <= i <= v.len(),
            radix == 10 || radix == 16,
            d == v@.skip(from as int),
            all_digits(d.take(i - from), radix as int),
            !over ==> digits_val(d.take(i - from), radix as int) == acc && acc <= limit,
            over ==> digits_val(d.take(i - from), radix as int) > limit,
        decreases v.len() - i,
    {
        let ghost pre = d.take(i - from);
        let ghost cur = d.take(i - from + 1);
        assert(cur.drop_last() =~= pre);
        assert(cur.last() == v@[i as int]);
        match digit_of(v[i], radix) {
            None => {
                assert(!all_digits(d, radix as int)) by {
                    assert(d[i - from] == v@[i as int]);
                }
                return None;
            },
            Some(dv) => {
                assert(all_digits(cur, radix as int)) by {
                    assert forall|k: int| 0 <= k < cur.len() implies #[trigger] digit_value(
                        cur[k],
                        radix as int,
                    ) is Some by {
                        if k < pre.len() {
                            assert(cur[k] == pre[k]);
                        }
                    }
                }
                proof {
                    lemma_digits_val_nonneg(pre, radix as int);
                }
                if over {
                    proof {
                        lemma_digits_val_mono(cur, radix as int);
                        assert(digits_val(pre, radix as int) * (radix as int) >= digits_val(
                            pre,
                            radix as int,
                        )) by (nonlinear_arith)
                            requires
                                digits_val(pre, radix as int) >= 0,
                                radix >= 10,
                        ;
                    }
                } else if dv > limit {
                    over = true;
                } else {
                    let q = (limit - dv) / radix;
                    if acc > q {
                        proof {
                            assert(acc * radix + dv > limit) by (nonlinear_arith)
                                requires
                                    acc > q,
                                    q as int == (limit as int - dv as int) / (radix as int),
                                    radix > 0,
                                    dv <= limit,
                            ;
                        }
                        over = true;
                    } else {
                        proof {
                            assert(acc * radix + dv <= limit) by (nonlinear_arith)
                                requires
                                    acc <= q,
                                    q as int == (limit as int - dv as int) / (radix as int),
                                    radix > 0,
                                    dv <= limit,
                            ;
                        }
                        acc = acc * radix + dv;
                    }
                }
            },
        }
        i = i + 1;
    }
    assert(d.take(i - from) =~= d);
    if over {
        None
    } else {
        Some(acc)
    }
}

/// Sign handling shared by all integer parsers: returns whether the text is
/// negative and where the digits start, or `None` if it has no digits at all.
fn sign_split(v: &Vec<char>, signed: bool) -> (r: Option<(bool, usize)>)
    ensures
        v@.len() == 0 <==> r is None,
        r matches Some((neg, from)) ==> ({
            &&& neg == (signed && v@[0] == '-')
            &&& from == (if v@[0] == '+' || neg {
                1usize
            } else {
                0usize
            })
        }),
{
    if v.len() == 0 {
        return None;
    }
    let neg = signed && v[0] == '-';
    if v[0] == '+' || neg {
        Some((neg, 1))
    } else {
        Some((neg, 0))
    }
}

/// Parses an unsigned integer of at most `max` (the rules of `u64::from_str_radix`).
pub fn parse_unsigned(s: &str, radix: u64, max: u64) -> (r: Option<u64>)
    requires
        radix == 10 || radix == 16,
    ensures
        r matches Some(v) ==> parse_int_spec(s@, false, 0, max as int, radix as int) == Some(
            v as int,
        ),
        r is None ==> parse_int_spec(s@, false, 0, max as int, radix as int) is None,
{
    let v = crate::text::chars_of(s);
    match sign_split(&v, false) {
        None => None,
        Some((_, from)) => {
            if from == v.len() {
                assert(v@.drop_first().len() == 0);
                return None;
            }
            assert(from == 1 ==> v@.skip(1) =~= v@.drop_first());
            assert(v@.skip(0) =~= v@);
            match digits_upto(&v, from, radix, max) {
                Some(m) => {
                    proof {
                        lemma_digits_val_nonneg(v@.skip(from as int), radix as int);
                    }
                    Some(m)
                },
                None => None,
            }
        },
    }
}

/// Parses a signed integer in `-neg_limit..=pos_limit` (the rules of `i64::from_str`),
/// returned as sign and magnitude.
pub fn parse_signed(s: &str, neg_limit: u64, pos_limit: u64) -> (r: Option<(bool, u64)>)
    ensures
        r matches Some((neg, m)) ==> parse_int_spec(
            s@,
            true,
            -(neg_limit as int),
            pos_limit as int,
            10,
        ) == Some(if neg {
            -(m as int)
        } else {
            m as int
        }) && (neg ==> m > 0),
        r is None ==> parse_int_spec(s@, true, -(neg_limit as int), pos_limit as int, 10) is None,
{
    let v = crate::text::chars_of(s);
    match sign_split(&v, true) {
        None => None,
        Some((neg, from)) => {
            if from == v.len() {
                assert(v@.drop_first().len() == 0);
                return None;
            }
            assert(from == 1 ==> v@.skip(1) =~= v@.drop_first());
            assert(v@.skip(0) =~= v@);
            let limit = if neg {
                neg_limit
            } else {
                pos_limit
            };
            match digits_upto(&v, from, 10, limit) {
                Some(m) => {
                    proof {
                        lemma_digits_val_nonneg(v@.skip(from as int), 10);
                    }
                    if neg && m == 0 {
                        Some((false, 0))
                    } else {
                        Some((neg, m))
                    }
                },
                None => {
                    proof {
                        if all_digits(v@.skip(from as int), 10) {
                            lemma_digits_val_nonneg(v@.skip(from as int), 10);
                        }
                    }
                    None
                },
            }
        },
    }
}

pub open spec fn parse_i64_spec(s: Seq<char>) -> Option<int> {
    parse_int_spec(s, true, i64::MIN as int, i64::MAX as int, 10)
}

pub open spec fn parse_i32_spec(s: Seq<char>) -> Option<int> {
    parse_int_spec(s, true, i32::MIN as int, i32::MAX as int, 10)
}

pub open spec fn parse_u16_spec(s: Seq<char>) -> Option<int> {
    parse_int_spec(s, false, 0, u16::MAX as int, 10)
}

pub open spec fn parse_u64_spec(s: Seq<char>) -> Option<int> {
    parse_int_spec(s, false, 0, u64::MAX as int, 10)
}

pub open spec fn parse_u16_hex_spec(s: Seq<char>) -> Option<int> {
    parse_int_spec(s, false, 0, u16::MAX as int, 16)
}

/// `s.parse::<i64>()`.
pub fn parse_i64(s: &str) -> (r: Option<i64>)
    ensures
        r matches Some(v) ==> parse_i64_spec(s@) == Some(v as int),
        r is None ==> parse_i64_spec(s@) is None,
{
    match parse_signed(s, 0x8000_0000_0000_0000u64, 0x7fff_ffff_ffff_ffffu64) {
        None => None,
        Some((neg, m)) => {
            if neg {
                if m == 0x8000_0000_0000_0000u64 {
                    Some(i64::MIN)
                } else {
                    Some(-(m as i64))
                }
            } else {
                Some(m as i64)
            }
        },
    }
}

/// `s.parse::<i32>()`.
pub fn parse_i32(s: &str) -> (r: Option<i32>)
    ensures
        r matches Some(v) ==> parse_i32_spec(s@) == Some(v as int),
        r is None ==> parse_i32_spec(s@) is None,
{
    match parse_signed(s, 0x8000_0000u64, 0x7fff_ffffu64) {
        None => None,
        Some((neg, m)) => {
            if neg {
                if m == 0x8000_0000u64 {
                    Some(i32::MIN)
                } else {
                    Some(-(m as i32))
                }
            } else {
                Some(m as i32)
            }
        },
    }
}

/// `s.parse::<u16>()`.
pub fn parse_u16(s: &str) -> (r: Option<u16>)
    ensures
        r matches Some(v) ==> parse_u16_spec(s@) == Some(v as int),
        r is None ==> parse_u16_spec(s@) is None,
{
    match parse_unsigned(s, 10, 0xffff) {
        None => None,
        Some(m) => Some(m as u16),
    }
}

/// `s.parse::<u64>()`.
pub fn parse_u64(s: &str) -> (r: Option<u64>)
    ensures
        r matches Some(v) ==> parse_u64_spec(s@) == Some(v as int),
        r is None ==> parse_u64_spec(s@) is None,
{
    parse_unsigned(s, 10, u64::MAX)
}

/// `u16::from_str_radix(s, 16)`.
pub fn parse_u16_hex(s: &str) -> (r: Option<u16>)
    ensures
        r matches Some(v) ==> parse_u16_hex_spec(s@) == Some(v as int),
        r is None ==> parse_u16_hex_spec(s@) is None,
{
    match parse_unsigned(s, 16, 0xffff) {
        None => None,
        Some(m) => Some(m as u16),
    }
}

// ---------------------------------------------------------------------------
// Formatting.
pub open spec fn digit_char(d: int) -> char {
    (('0' as int) + d) as char
}

/// Decimal digits of a natural number (`{}` formatting).
pub open spec fn dec(n: nat) -> Seq<char>
    decreases n,
{
    if n < 10 {
        seq![digit_char(n as int)]
    } else {
        dec((n / 10) as nat).push(digit_char((n % 10) as int))
    }
}

/// Decimal text of an integer, with a leading `-` when negative.
pub open spec fn int_text(n: int) -> Seq<char> {
    if n < 0 {
        seq!['-'] + dec((-n) as nat)
    } else {
        dec(n as nat)
    }
}

proof fn lemma_digit_char(d: int)
    requires
        0 <= d < 10,
    ensures
        '0' <= digit_char(d) <= '9',
        digit_value(digit_char(d), 10) == Some(d),
{
}

/// The decimal text of `n` is a non-empty string of digits that reads back as `n`.
pub proof fn lemma_dec_reads_back(n: nat)
    ensures
        dec(n).len() > 0,
        '0' <= dec(n)[0] <= '9',
        '0' <= dec(n).last() <= '9',
        all_digits(dec(n), 10),
        digits_val(dec(n), 10) == n,
    decreases n,
{
    let d = dec(n);
    if n < 10 {
        lemma_digit_char(n as int);
        assert(d.drop_last() =~= Seq::<char>::empty());
        assert(d.last() == digit_char(n as int));
        assert(digits_val(d.drop_last(), 10) == 0);
        assert(digits_val(d, 10) == digits_val(d.drop_last(), 10) * 10 + n);
    } else {
        let p = dec((n / 10) as nat);
        lemma_dec_reads_back((n / 10) as nat);
        lemma_digit_char((n % 10) as int);
        assert(d.drop_last() =~= p);
        assert(d.last() == digit_char((n % 10) as int));
        assert(d[0] == p[0]);
        assert((n / 10) * 10 + n % 10 == n) by (nonlinear_arith);
        assert(digits_val(d, 10) == digits_val(p, 10) * 10 + n % 10);
        assert forall|i: int| 0 <= i < d.len() implies #[trigger] digit_value(d[i], 10) is Some by {
            if i < p.len() {
                assert(d[i] == p[i]);
            }
        }
    }
}

/// `int_text` of an `i32` reads back with `parse::<i32>()` as the same number.
pub proof fn lemma_int_text_parses(n: i32)
    ensures
        parse_i32_spec(int_text(n as int)) == Some(n as int),
        int_text(n as int).len() > 0,
        int_text(n as int)[0] == '-' || '0' <= int_text(n as int)[0] <= '9',
        '0' <= int_text(n as int).last() <= '9',
{
    let t = int_text(n as int);
    if n < 0 {
        let m = (-n) as nat;
        lemma_dec_reads_back(m);
        assert(t.drop_first() =~= dec(m));
    } else {
        lemma_dec_reads_back(n as nat);
    }
}

fn digit_char_exec(d: u64) -> (c: char)
    requires
        d < 10,
    ensures
        c == digit_char(d as int),
{
    ((48u8 + d as u8) as char)
}

pub fn u64_chars(n: u64) -> (out: Vec<char>)
    ensures
        out@ == dec(n as nat),
    decreases n,
{
    if n < 10 {
        let c = digit_char_exec(n);
        let mut v: Vec<char> = Vec::new();
        v.push(c);
        v
    } else {
        let mut v = u64_chars(n / 10);
        let c = digit_char_exec(n % 10);
        v.push(c);
        v
    }
}

pub fn i64_chars(n: i64) -> (out: Vec<char>)
    ensures
        out@ == int_text(n as int),
{
    if n < 0 {
        let m: u64 = if n == i64::MIN {
            0x8000_0000_0000_0000u64
        } else {
            (-n) as u64
        };
        let d = u64_chars(m);
        let mut v: Vec<char> = Vec::new();
        v.push('-');
        crate::text::append_chars(&mut v, &d);
        v
    } else {
        u64_chars(n as u64)
    }
}

/// `n.to_string()` for an `i32`.
pub fn i32_string(n: i32) -> (s: String)
    ensures
        s@ == int_text(n as int),
{
    let v = i64_chars(n as i64);
    crate::text::string_of(v.as_slice())
}

/// `n.to_string()` for a `u64`.
pub fn u64_string(n: u64) -> (s: String)
    ensures
        s@ == dec(n as nat),
{
    let v = u64_chars(n);
    crate::text::string_of(v.as_slice())
}

} // verus!
