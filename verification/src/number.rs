use vstd::prelude::*;

verus! {

/// The value of an ASCII digit in `radix` (letters count from 10, in either case).
pub open spec fn digit_value(c: u8, radix: nat) -> Option<nat> {
    let v: int = if 48 <= c <= 57 {
        c - 48
    } else if 97 <= c <= 122 {
        c - 97 + 10
    } else if 65 <= c <= 90 {
        c - 65 + 10
    } else {
        radix as int
    };
    if v < radix { Some(v as nat) } else { None }
}

/// The value of a string of digits, most significant first; `None` if one is not a digit.
pub open spec fn digits_value(s: Seq<u8>, radix: nat) -> Option<nat>
    decreases s.len(),
{
    if s.len() == 0 {
        Some(0)
    } else {
        match (digits_value(s.drop_last(), radix), digit_value(s.last(), radix)) {
            (Some(v), Some(d)) => Some(v * radix + d),
            _ => None,
        }
    }
}

/// `i32::from_str_radix`: an optional `+` or `-`, then at least one digit, with the
/// value in the range of `i32`.
pub open spec fn parse_i32(s: Seq<u8>, radix: nat) -> Option<i32> {
    if s.len() == 0 {
        None
    } else {
        let neg = s[0] == 45;
        let digits = if s[0] == 45 || s[0] == 43 { s.drop_first() } else { s };
        if digits.len() == 0 {
            None
        } else {
            match digits_value(digits, radix) {
                None => None,
                Some(v) => {
                    let r: int = if neg { -v } else { v as int };
                    if i32::MIN <= r <= i32::MAX { Some(r as i32) } else { None }
                },
            }
        }
    }
}

fn digit_of(c: u8, radix: u32) -> (res: Option<u32>)
    requires
        2 <= radix <= 36,
    ensures
        match res {
            Some(d) => digit_value(c, radix as nat) == Some(d as nat),
            None => digit_value(c, radix as nat) is None,
        },
{
    let v: u32 = if c >= 48 && c <= 57 {
        (c - 48) as u32
    } else if c >= 97 && c <= 122 {
        (c - 97) as u32 + 10
    } else if c >= 65 && c <= 90 {
        (c - 65) as u32 + 10
    } else {
        radix
    };
    if v < radix { Some(v) } else { None }
}

/// Parses `s` as `i32::from_str_radix` does (and `str::parse::<i32>` for radix 10).
pub fn parse_i32_radix(s: &[u8], radix: u32) -> (res: Option<i32>)
    requires
        2 <= radix <= 36,
    ensures
        res == parse_i32(s@, radix as nat),
{
    if s.len() == 0 {
        return None;
    }
    let neg = s[0] == 45;
    let start: usize = if s[0] == 45 || s[0] == 43 { 1 } else { 0 };
    if start == s.len() {
        return None;
    }
    let ghost digits = if s@[0] == 45 || s@[0] == 43 { s@.drop_first() } else { s@ };
    assert(digits == s@.subrange(start as int, s@.len() as int));
    let limit: i64 = 0x8000_0000;
    let mut acc: i64 = 0;
    let mut valid = true;
    let mut big = false;
    let mut i = start;
    while i < s.len()
        invariant
            start <= i <= s@.len(),
            digits == s@.subrange(start as int, s@.len() as int),
            2 <= radix <= 36,
            limit == 0x8000_0000,
            0 <= acc <= limit,
            valid <==> digits_value(digits.take(i - start), radix as nat) is Some,
            valid && !big ==> digits_value(digits.take(i - start), radix as nat) == Some(acc as nat),
            valid && big ==> digits_value(digits.take(i - start), radix as nat).unwrap() > limit,
        decreases s@.len() - i,
    {
        let ghost pre = digits.take(i - start);
        let ghost cur = digits.take(i + 1 - start);
        assert(cur.drop_last() == pre);
        assert(cur.last() == s@[i as int]);
        match digit_of(s[i], radix) {
            None => {
                valid = false;
            },
            Some(d) => {
                if valid && !big {
                    assert(acc * radix <= 0x8000_0000 * 36) by (nonlinear_arith)
                        requires 0 <= acc <= 0x8000_0000, radix <= 36;
                    let next = acc * (radix as i64) + (d as i64);
                    if next > limit {
                        big = true;
                    } else {
                        acc = next;
                    }
                } else if valid && big {
                    let ghost v = digits_value(pre, radix as nat).unwrap();
                    assert(v * radix + d > limit) by (nonlinear_arith)
                        requires v > limit, radix >= 2, d >= 0;
                }
            },
        }
        i = i + 1;
    }
    assert(digits.take(s@.len() - start) == digits);
    if !valid || big {
        return None;
    }
    if neg {
        Some((-acc) as i32)
    } else if acc < limit {
        Some(acc as i32)
    } else {
        None
    }
}

/// The lowercase digit character for the value `d` (below 36): `0`-`9`, then `a`-`z`.
pub open spec fn digit_char(d: nat) -> u8 {
    if d < 10 { (48 + d) as u8 } else { (87 + d) as u8 }
}

/// The uppercase digit character for the value `d` (below 36): `0`-`9`, then `A`-`Z`.
pub open spec fn upper_digit_char(d: nat) -> u8 {
    if d < 10 { (48 + d) as u8 } else { (55 + d) as u8 }
}

/// Every digit below the radix, written alone in either case, parses as its value, as
/// with `i32::from_str_radix`; a digit at or above the radix does not parse.
pub proof fn law_parse_digit(d: nat, radix: nat)
    requires
        2 <= radix <= 36,
        d < 36,
    ensures
        parse_i32(seq![digit_char(d)], radix) == if d < radix { Some(d as i32) } else { None },
        parse_i32(seq![upper_digit_char(d)], radix) == if d < radix { Some(d as i32) } else { None },
{
    let s = seq![digit_char(d)];
    let u = seq![upper_digit_char(d)];
    assert(s.drop_last() =~= Seq::<u8>::empty());
    assert(u.drop_last() =~= Seq::<u8>::empty());
    assert(digits_value(s.drop_last(), radix) == Some(0nat));
    assert(digits_value(u.drop_last(), radix) == Some(0nat));
    assert(s[0] == digit_char(d) && s.last() == digit_char(d));
    assert(u[0] == upper_digit_char(d) && u.last() == upper_digit_char(d));
    assert(digit_value(digit_char(d), radix) == if d < radix { Some(d) } else { None::<nat> });
    assert(digit_value(upper_digit_char(d), radix) == if d < radix { Some(d) } else { None::<nat> });
    assert(0nat * radix == 0nat);
    if d < radix {
        assert(digits_value(s, radix) == Some(d));
        assert(digits_value(u, radix) == Some(d));
    } else {
        assert(digits_value(s, radix) is None);
        assert(digits_value(u, radix) is None);
    }
}

/// Appending a digit to a non-negative number written without a minus sign multiplies
/// its value by the radix and adds the digit's value (`None` past `i32::MAX`).
pub proof fn law_parse_append_digit(s: Seq<u8>, radix: nat, d: nat)
    requires
        2 <= radix <= 36,
        d < radix,
        parse_i32(s, radix) is Some,
        s[0] != 45,
    ensures
        parse_i32(s.push(digit_char(d)), radix) == if parse_i32(s, radix).unwrap() * radix + d <= i32::MAX {
            Some((parse_i32(s, radix).unwrap() * radix + d) as i32)
        } else {
            None
        },
{
    let t = s.push(digit_char(d));
    let digits = if s[0] == 43 { s.drop_first() } else { s };
    let tdigits = if t[0] == 43 { t.drop_first() } else { t };
    assert(t[0] == s[0]);
    assert(tdigits =~= digits.push(digit_char(d)));
    assert(tdigits.drop_last() =~= digits);
    assert(tdigits.last() == digit_char(d));
}

/// A leading `+` changes nothing; a leading `-` negates the value (also reaching
/// `i32::MIN`, whose magnitude alone does not fit); a sign alone, or nothing, is no number.
pub proof fn law_parse_sign(s: Seq<u8>, radix: nat)
    requires
        2 <= radix <= 36,
        s.len() > 0,
        s[0] != 43,
        s[0] != 45,
    ensures
        parse_i32(seq![43u8] + s, radix) == parse_i32(s, radix),
        parse_i32(s, radix) matches Some(v) ==> parse_i32(seq![45u8] + s, radix) == Some((-v) as i32),
        parse_i32(seq![43u8], radix) is None,
        parse_i32(seq![45u8], radix) is None,
        parse_i32(Seq::<u8>::empty(), radix) is None,
{
    assert((seq![43u8] + s).drop_first() =~= s);
    assert((seq![45u8] + s).drop_first() =~= s);
    assert(seq![43u8].drop_first() =~= Seq::<u8>::empty());
    assert(seq![45u8].drop_first() =~= Seq::<u8>::empty());
}

} // verus!
