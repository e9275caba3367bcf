use vstd::prelude::*;
use vstd::string::*;
use vstd::utf8::*;

verus! {

/// The decimal digit for `d < 10`.
pub open spec fn digit_char(d: nat) -> char {
    if d == 0 {
        '0'
    } else if d == 1 {
        '1'
    } else if d == 2 {
        '2'
    } else if d == 3 {
        '3'
    } else if d == 4 {
        '4'
    } else if d == 5 {
        '5'
    } else if d == 6 {
        '6'
    } else if d == 7 {
        '7'
    } else if d == 8 {
        '8'
    } else {
        '9'
    }
}

/// The decimal digits of `n`, most significant first, without leading zeros.
pub open spec fn decimal(n: nat) -> Seq<char>
    decreases n,
{
    if n < 10 {
        seq![digit_char(n)]
    } else {
        decimal(n / 10).push(digit_char(n % 10))
    }
}

/// The canonical decimal text of an integer: a minus sign before the digits of a negative one.
pub open spec fn int_text(n: int) -> Seq<char> {
    if n < 0 {
        seq!['-'] + decimal((-n) as nat)
    } else {
        decimal(n as nat)
    }
}

pub open spec fn bool_text(b: bool) -> Seq<char> {
    if b {
        seq!['t', 'r', 'u', 'e']
    } else {
        seq!['f', 'a', 'l', 's', 'e']
    }
}

/// The characters that `bytes` encode in UTF-8, if they are well-formed UTF-8.
pub open spec fn utf8_chars(bytes: Seq<u8>) -> Option<Seq<char>> {
    if valid_utf8(bytes) {
        Some(decode_utf8(bytes))
    } else {
        None
    }
}

/// Where a letter stands once ASCII case is set aside.
pub open spec fn ascii_fold(c: u32) -> u32 {
    if 65 <= c <= 90 {
        (c + 32) as u32
    } else {
        c
    }
}

/// `a` and `b` are equal up to the case of ASCII letters.
pub open spec fn eq_ignore_ascii_case(a: Seq<char>, b: Seq<char>) -> bool {
    &&& a.len() == b.len()
    &&& forall|i: int| 0 <= i < a.len() ==> ascii_fold(a[i] as u32) == ascii_fold(b[i] as u32)
}

/// `a` and `b` are equal up to the case of ASCII letters.
pub open spec fn bytes_eq_ignore_ascii_case(a: Seq<u8>, b: Seq<u8>) -> bool {
    &&& a.len() == b.len()
    &&& forall|i: int| 0 <= i < a.len() ==> ascii_fold(a[i] as u32) == ascii_fold(b[i] as u32)
}

/// Relies on `std::str::from_utf8`: it accepts exactly the well-formed UTF-8 byte strings,
/// and the text it yields holds the characters they encode.
#[verifier::external_body]
pub(crate) fn from_utf8(bytes: &[u8]) -> (r: Option<String>)
    ensures
        r is Some <==> utf8_chars(bytes@) is Some,
        r matches Some(s) ==> utf8_chars(bytes@) == Some(s@),
{
    match std::str::from_utf8(bytes) {
        Ok(s) => Some(s.to_owned()),
        Err(_) => None,
    }
}

/// Relies on `char::to_string`: the text holds that one character.
#[verifier::external_body]
pub(crate) fn char_to_string(c: char) -> (r: String)
    ensures
        r@ == seq![c],
{
    c.to_string()
}

pub fn bool_to_text(b: bool) -> (r: String)
    ensures
        r@ == bool_text(b),
{
    if b {
        let r = String::from_str("true");
        proof {
            reveal_strlit("true");
        }
        assert(r@ =~= bool_text(b));
        r
    } else {
        let r = String::from_str("false");
        proof {
            reveal_strlit("false");
        }
        assert(r@ =~= bool_text(b));
        r
    }
}

fn digit_str(d: u8) -> (r: &'static str)
    requires
        d < 10,
    ensures
        r@ == seq![digit_char(d as nat)],
{
    let r = if d == 0 {
        "0"
    } else if d == 1 {
        "1"
    } else if d == 2 {
        "2"
    } else if d == 3 {
        "3"
    } else if d == 4 {
        "4"
    } else if d == 5 {
        "5"
    } else if d == 6 {
        "6"
    } else if d == 7 {
        "7"
    } else if d == 8 {
        "8"
    } else {
        "9"
    };
    proof {
        reveal_strlit("0");
        reveal_strlit("1");
        reveal_strlit("2");
        reveal_strlit("3");
        reveal_strlit("4");
        reveal_strlit("5");
        reveal_strlit("6");
        reveal_strlit("7");
        reveal_strlit("8");
        reveal_strlit("9");
    }
    assert(r@ =~= seq![digit_char(d as nat)]);
    r
}

fn push_decimal(s: &mut String, n: u128)
    ensures
        final(s)@ == old(s)@ + decimal(n as nat),
    decreases n,
{
    if n >= 10 {
        push_decimal(s, n / 10);
    }
    s.append(digit_str((n % 10) as u8));
    proof {
        if n >= 10 {
            assert(decimal(n as nat) == decimal((n / 10) as nat).push(digit_char((n % 10) as nat)));
        }
    }
    assert(s@ =~= old(s)@ + decimal(n as nat));
}

/// The decimal text of a number of size `magnitude`, with a minus sign where `negative`.
pub fn signed_text(negative: bool, magnitude: u128) -> (r: String)
    ensures
        r@ == (if negative { seq!['-'] } else { Seq::empty() }) + decimal(magnitude as nat),
{
    let mut s = if negative {
        String::from_str("-")
    } else {
        String::new()
    };
    proof {
        reveal_strlit("-");
    }
    assert(s@ =~= (if negative { seq!['-'] } else { Seq::<char>::empty() }));
    push_decimal(&mut s, magnitude);
    s
}

/// The canonical decimal text of `n`.
pub fn int_to_text(n: i128) -> (r: String)
    ensures
        r@ == int_text(n as int),
{
    if n < 0 {
        let m: u128 = if n == i128::MIN {
            170141183460469231731687303715884105728u128
        } else {
            (-n) as u128
        };
        let r = signed_text(true, m);
        assert(r@ == int_text(n as int));
        r
    } else {
        let r = signed_text(false, n as u128);
        assert(r@ =~= int_text(n as int));
        r
    }
}

/// The canonical decimal text of `n`.
pub fn uint_to_text(n: u128) -> (r: String)
    ensures
        r@ == int_text(n as int),
{
    let r = signed_text(false, n);
    assert(r@ =~= int_text(n as int));
    r
}

/// Whether `s` equals `w` once ASCII case is set aside.
pub fn text_matches_word(s: &str, w: &str) -> (r: bool)
    ensures
        r == eq_ignore_ascii_case(s@, w@),
{
    let n = s.unicode_len();
    if n != w.unicode_len() {
        return false;
    }
    let mut i: usize = 0;
    while i < n
        invariant
            n == s@.len() == w@.len(),
            i <= n,
            forall|j: int| 0 <= j < i ==> ascii_fold(s@[j] as u32) == ascii_fold(w@[j] as u32),
        decreases n - i,
    {
        let a = s.get_char(i) as u32;
        let b = w.get_char(i) as u32;
        let fa = if 65 <= a && a <= 90 { a + 32 } else { a };
        let fb = if 65 <= b && b <= 90 { b + 32 } else { b };
        if fa != fb {
            return false;
        }
        i += 1;
    }
    true
}

/// Whether `s` equals `w` once ASCII case is set aside.
pub fn bytes_match_word(s: &[u8], w: &[u8]) -> (r: bool)
    ensures
        r == bytes_eq_ignore_ascii_case(s@, w@),
{
    let n = s.len();
    if n != w.len() {
        return false;
    }
    let mut i: usize = 0;
    while i < n
        invariant
            n == s@.len() == w@.len(),
            i <= n,
            forall|j: int| 0 <= j < i ==> ascii_fold(s@[j] as u32) == ascii_fold(w@[j] as u32),
        decreases n - i,
    {
        let a = s[i] as u32;
        let b = w[i] as u32;
        let fa = if 65 <= a && a <= 90 { a + 32 } else { a };
        let fb = if 65 <= b && b <= 90 { b + 32 } else { b };
        if fa != fb {
            return false;
        }
        i += 1;
    }
    true
}

} // verus!
