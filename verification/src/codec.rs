//! Character-level encodings used by the token service: lower-case
//! hexadecimal for signatures and decimal text for numeric subjects.

use vstd::prelude::*;
use vstd::string::StrSliceExecFns;

verus! {

/// Appends one character to a string buffer. Relies on std's
/// `String::push`, which the documentation describes as appending
/// the given character to the end of the string.
#[verifier::external_body]
pub(crate) fn push_char(s: &mut String, c: char)
    ensures
        final(s)@ == old(s)@.push(c),
{
    s.push(c);
}

/// The lower-case hexadecimal digit for a value below sixteen.
pub open spec fn hex_digit(n: int) -> char {
    if n == 0 {
        '0'
    } else if n == 1 {
        '1'
    } else if n == 2 {
        '2'
    } else if n == 3 {
        '3'
    } else if n == 4 {
        '4'
    } else if n == 5 {
        '5'
    } else if n == 6 {
        '6'
    } else if n == 7 {
        '7'
    } else if n == 8 {
        '8'
    } else if n == 9 {
        '9'
    } else if n == 10 {
        'a'
    } else if n == 11 {
        'b'
    } else if n == 12 {
        'c'
    } else if n == 13 {
        'd'
    } else if n == 14 {
        'e'
    } else {
        'f'
    }
}

/// Two hexadecimal digits for one byte, high nibble first.
pub open spec fn hex_of_byte(b: u8) -> Seq<char> {
    seq![hex_digit(b as int / 16), hex_digit(b as int % 16)]
}

/// Lower-case hexadecimal encoding of a byte string, two digits per byte.
pub open spec fn hex_of(m: Seq<u8>) -> Seq<char>
    decreases m.len(),
{
    if m.len() == 0 {
        Seq::empty()
    } else {
        hex_of_byte(m.first()) + hex_of(m.drop_first())
    }
}

fn hex_digit_char(n: u8) -> (c: char)
    requires
        n < 16,
    ensures
        c == hex_digit(n as int),
{
    match n {
        0 => '0',
        1 => '1',
        2 => '2',
        3 => '3',
        4 => '4',
        5 => '5',
        6 => '6',
        7 => '7',
        8 => '8',
        9 => '9',
        10 => 'a',
        11 => 'b',
        12 => 'c',
        13 => 'd',
        14 => 'e',
        _ => 'f',
    }
}

/// The hexadecimal text of a byte string.
pub fn hex_string(m: &Vec<u8>) -> (r: String)
    ensures
        r@ == hex_of(m@),
{
    let mut r = String::new();
    let mut i: usize = 0;
    proof {
        assert(m@.skip(0) =~= m@);
    }
    while i < m.len()
        invariant
            i <= m@.len(),
            hex_of(m@) =~= r@ + hex_of(m@.skip(i as int)),
        decreases m@.len() - i,
    {
        let b = m[i];
        push_char(&mut r, hex_digit_char(b / 16));
        push_char(&mut r, hex_digit_char(b % 16));
        proof {
            assert(m@.skip(i as int).first() == m@[i as int]);
            assert(m@.skip(i as int).drop_first() =~= m@.skip(i as int + 1));
        }
        i = i + 1;
    }
    proof {
        assert(m@.skip(m@.len() as int) =~= Seq::<u8>::empty());
    }
    r
}

pub proof fn lemma_hex_len(m: Seq<u8>)
    ensures
        hex_of(m).len() == 2 * m.len(),
    decreases m.len(),
{
    if m.len() > 0 {
        lemma_hex_len(m.drop_first());
    }
}

/// No character of a hexadecimal encoding is the token separator.
pub proof fn lemma_hex_no_dot(m: Seq<u8>)
    ensures
        forall|i: int| 0 <= i < hex_of(m).len() ==> hex_of(m)[i] != '.',
    decreases m.len(),
{
    if m.len() > 0 {
        lemma_hex_no_dot(m.drop_first());
        assert forall|i: int| 0 <= i < hex_of(m).len() implies hex_of(m)[i] != '.' by {
            if i >= 2 {
                assert(hex_of(m)[i] == hex_of(m.drop_first())[i - 2]);
            }
        }
    }
}

/// Distinct byte strings have distinct hexadecimal encodings.
pub proof fn lemma_hex_injective(a: Seq<u8>, b: Seq<u8>)
    requires
        hex_of(a) == hex_of(b),
    ensures
        a == b,
    decreases a.len(),
{
    lemma_hex_len(a);
    lemma_hex_len(b);
    if a.len() == 0 {
        assert(a =~= b);
    } else {
        let ha = hex_of(a);
        let hb = hex_of(b);
        assert(ha[0] == hex_digit(a.first() as int / 16));
        assert(ha[1] == hex_digit(a.first() as int % 16));
        assert(hb[0] == hex_digit(b.first() as int / 16));
        assert(hb[1] == hex_digit(b.first() as int % 16));
        assert(a.first() as int / 16 == b.first() as int / 16);
        assert(a.first() as int % 16 == b.first() as int % 16);
        assert(a.first() as int == 16 * (a.first() as int / 16) + (a.first() as int % 16)) by {
            vstd::arithmetic::div_mod::lemma_fundamental_div_mod(a.first() as int, 16);
        }
        assert(b.first() as int == 16 * (b.first() as int / 16) + (b.first() as int % 16)) by {
            vstd::arithmetic::div_mod::lemma_fundamental_div_mod(b.first() as int, 16);
        }
        assert(a.first() == b.first());
        assert(hex_of(a.drop_first()) =~= ha.skip(2));
        assert(hex_of(b.drop_first()) =~= hb.skip(2));
        lemma_hex_injective(a.drop_first(), b.drop_first());
        assert forall|i: int| 0 <= i < a.len() implies a[i] == b[i] by {
            if i > 0 {
                assert(a[i] == a.drop_first()[i - 1]);
                assert(b[i] == b.drop_first()[i - 1]);
            }
        }
        assert(a =~= b);
    }
}

/// The digit character for a value below ten.
pub open spec fn dec_digit(n: int) -> char {
    hex_digit(if 0 <= n < 10 {
        n
    } else {
        0
    })
}

/// Decimal text of a natural number, most significant digit first.
pub open spec fn dec_of(n: nat) -> Seq<char>
    decreases n,
{
    if n < 10 {
        seq![dec_digit(n as int)]
    } else {
        dec_of(n / 10).push(dec_digit((n % 10) as int))
    }
}

fn dec_digit_char(n: u32) -> (c: char)
    requires
        n < 10,
    ensures
        c == dec_digit(n as int),
{
    hex_digit_char(n as u8)
}

fn push_dec_u32(s: &mut String, n: u32)
    ensures
        final(s)@ == old(s)@ + dec_of(n as nat),
    decreases n,
{
    if n >= 10 {
        push_dec_u32(s, n / 10);
    }
    push_char(s, dec_digit_char(n % 10));
    proof {
        if n < 10 {
            assert(old(s)@ + dec_of(n as nat) =~= old(s)@.push(dec_digit(n as int)));
        } else {
            assert(old(s)@ + dec_of(n as nat) =~= (old(s)@ + dec_of((n / 10) as nat)).push(
                dec_digit((n % 10) as int),
            ));
        }
    }
}

/// Decimal text of a non-negative id.
pub fn i32_to_dec(n: i32) -> (r: String)
    requires
        n >= 0,
    ensures
        r@ == dec_of(n as nat),
{
    let mut r = String::new();
    push_dec_u32(&mut r, n as u32);
    proof {
        assert(Seq::<char>::empty() + dec_of(n as nat) =~= dec_of(n as nat));
    }
    r
}

/// Whether a character is a decimal digit.
pub open spec fn is_dec_digit(c: char) -> bool {
    48 <= c as int <= 57
}

pub open spec fn all_dec_digits(s: Seq<char>) -> bool {
    forall|i: int| 0 <= i < s.len() ==> is_dec_digit(s[i])
}

/// Numeric value of digit text, read left to right.
pub open spec fn dec_val(s: Seq<char>) -> int
    decreases s.len(),
{
    if s.len() == 0 {
        0
    } else {
        dec_val(s.drop_last()) * 10 + (s.last() as int - 48)
    }
}

/// The id denoted by a subject string: defined exactly when the string is
/// one or more decimal digits whose value fits the id type.
pub open spec fn parse_i32(s: Seq<char>) -> Option<i32> {
    if s.len() > 0 && all_dec_digits(s) && dec_val(s) <= i32::MAX {
        Some(dec_val(s) as i32)
    } else {
        None
    }
}

proof fn lemma_dec_val_nonneg(s: Seq<char>)
    requires
        all_dec_digits(s),
    ensures
        dec_val(s) >= 0,
    decreases s.len(),
{
    if s.len() > 0 {
        assert(all_dec_digits(s.drop_last()));
        lemma_dec_val_nonneg(s.drop_last());
    }
}

proof fn lemma_dec_val_prefix_le(s: Seq<char>, j: int)
    requires
        all_dec_digits(s),
        0 <= j <= s.len(),
    ensures
        dec_val(s.subrange(0, j)) <= dec_val(s),
    decreases s.len() - j,
{
    if j < s.len() {
        let t = s.subrange(0, j + 1);
        assert(t.drop_last() =~= s.subrange(0, j));
        assert(all_dec_digits(t.drop_last()));
        lemma_dec_val_nonneg(t.drop_last());
        assert(dec_val(t) == dec_val(s.subrange(0, j)) * 10 + (s[j] as int - 48));
        assert(dec_val(s.subrange(0, j)) <= dec_val(t));
        lemma_dec_val_prefix_le(s, j + 1);
        assert(s.subrange(0, s.len() as int) =~= s);
    } else {
        assert(s.subrange(0, j) =~= s);
    }
}

/// Reads a subject string as an id, accepting exactly the strings that
/// `parse_i32` accepts.
pub fn parse_subject(s: &str) -> (r: Option<i32>)
    ensures
        r == parse_i32(s@),
{
    let n = s.unicode_len();
    if n == 0 {
        return None;
    }
    let mut acc: i32 = 0;
    let mut i: usize = 0;
    while i < n
        invariant
            0 < n == s@.len(),
            i <= n,
            all_dec_digits(s@.subrange(0, i as int)),
            acc == dec_val(s@.subrange(0, i as int)),
            0 <= acc <= i32::MAX,
        decreases n - i,
    {
        let c = s.get_char(i);
        let v = c as u32;
        proof {
            assert(s@.subrange(0, i as int + 1).drop_last() =~= s@.subrange(0, i as int));
        }
        if v < 48 || v > 57 {
            proof {
                assert(!is_dec_digit(s@[i as int]));
                assert(!all_dec_digits(s@));
            }
            return None;
        }
        let d = (v - 48) as i32;
        if acc > (i32::MAX - d) / 10 {
            proof {
                let t = s@.subrange(0, i as int + 1);
                assert(all_dec_digits(t));
                assert(dec_val(t) == acc * 10 + d);
                assert(acc * 10 + d > i32::MAX);
                if all_dec_digits(s@) {
                    lemma_dec_val_prefix_le(s@, i as int + 1);
                    assert(dec_val(s@) > i32::MAX);
                }
            }
            return None;
        }
        acc = acc * 10 + d;
        i = i + 1;
    }
    proof {
        assert(s@.subrange(0, n as int) =~= s@);
    }
    Some(acc)
}

} // verus!
