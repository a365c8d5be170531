use vstd::prelude::*;
use vstd::string::StrSliceExecFns;
use vstd::string::StringExecFns;

verus! {

/// Relies on String::push: appends the given character to the end of the string.
#[verifier::external_body]
pub fn push_char(s: &mut String, c: char)
    ensures
        final(s)@ == old(s)@.push(c),
{
    s.push(c);
}

/// The character a byte stands for when source bytes are read one at a time.
pub open spec fn byte_char(b: u8) -> char {
    b as char
}

/// Builds a string whose characters are the given bytes, one character per byte.
pub fn string_from_bytes(v: &Vec<u8>) -> (r: String)
    ensures
        r@.len() == v@.len(),
        forall|i: int| 0 <= i < v@.len() ==> r@[i] == byte_char(v@[i]),
{
    let mut r = String::new();
    let mut i: usize = 0;
    while i < v.len()
        invariant
            i <= v@.len(),
            r@.len() == i,
            forall|j: int| 0 <= j < i ==> r@[j] == byte_char(v@[j]),
        decreases v@.len() - i,
    {
        push_char(&mut r, v[i] as char);
        i = i + 1;
    }
    r
}

/// The bytes of an ASCII string, if it is ASCII: one byte per character.
pub fn ascii_bytes(s: &str) -> (r: Option<Vec<u8>>)
    ensures
        match r {
            Some(v) => {
                &&& s.is_ascii()
                &&& v@.len() == s@.len()
                &&& forall|i: int| 0 <= i < s@.len() ==> v@[i] == s@[i] as u8
                &&& forall|i: int| 0 <= i < s@.len() ==> (s@[i] as nat) < 128
            },
            None => !s.is_ascii(),
        },
{
    broadcast use vstd::string::is_ascii_spec_bytes;

    if s.is_ascii() {
        let v = s.as_bytes_vec();
        proof {
            vstd::utf8::is_ascii_chars_encode_utf8(s@);
        }
        Some(v)
    } else {
        None
    }
}

// ---------------------------------------------------------------------------
// Decimal and hexadecimal digit sequences
// ---------------------------------------------------------------------------
/// Whether a character is a decimal digit.
pub open spec fn is_dec_digit(c: char) -> bool {
    '0' <= c && c <= '9'
}

/// The numeric value of a decimal digit.
pub open spec fn dec_digit_val(c: char) -> nat {
    ((c as nat) - 48) as nat
}

/// Whether every character of the sequence is a decimal digit.
pub open spec fn all_dec_digits(s: Seq<char>) -> bool {
    forall|i: int| 0 <= i < s.len() ==> is_dec_digit(#[trigger] s[i])
}

/// The number a sequence of decimal digits denotes, most significant first.
pub open spec fn dec_val(s: Seq<char>) -> nat
    decreases s.len(),
{
    if s.len() == 0 {
        0
    } else {
        dec_val(s.drop_last()) * 10 + dec_digit_val(s.last())
    }
}

/// Whether a character is a hexadecimal digit.
pub open spec fn is_hex_digit_char(c: char) -> bool {
    is_dec_digit(c) || ('a' <= c && c <= 'f') || ('A' <= c && c <= 'F')
}

/// The numeric value of a hexadecimal digit.
pub open spec fn hex_digit_val(c: char) -> nat {
    if is_dec_digit(c) {
        ((c as nat) - 48) as nat
    } else if 'a' <= c && c <= 'f' {
        ((c as nat) - 87) as nat
    } else {
        ((c as nat) - 55) as nat
    }
}

/// Whether every character of the sequence is a hexadecimal digit.
pub open spec fn all_hex_digits(s: Seq<char>) -> bool {
    forall|i: int| 0 <= i < s.len() ==> is_hex_digit_char(#[trigger] s[i])
}

/// The number a sequence of hexadecimal digits denotes, most significant first.
pub open spec fn hex_val(s: Seq<char>) -> nat
    decreases s.len(),
{
    if s.len() == 0 {
        0
    } else {
        hex_val(s.drop_last()) * 16 + hex_digit_val(s.last())
    }
}

/// Ten to the given power.
pub open spec fn pow10(k: nat) -> nat
    decreases k,
{
    if k == 0 {
        1
    } else {
        10 * pow10((k - 1) as nat)
    }
}

/// The number a sequence of decimal digits denotes, least significant first.
pub open spec fn dec_val_rev(s: Seq<char>) -> nat
    decreases s.len(),
{
    if s.len() == 0 {
        0
    } else {
        dec_digit_val(s[0]) + 10 * dec_val_rev(s.skip(1))
    }
}

proof fn lemma_dec_val_rev_push(s: Seq<char>, c: char)
    ensures
        dec_val_rev(s.push(c)) == dec_val_rev(s) + dec_digit_val(c) * pow10(s.len()),
    decreases s.len(),
{
    if s.len() == 0 {
        assert(s.push(c).skip(1) =~= Seq::<char>::empty());
        assert(s.push(c).len() == 1);
        assert(s.push(c)[0] == c);
        assert(dec_val_rev(s.push(c)) == dec_digit_val(c) + 10 * dec_val_rev(
            s.push(c).skip(1),
        ));
        assert(dec_val_rev(s.push(c).skip(1)) == 0);
        assert(dec_val_rev(s) == 0);
        assert(pow10(s.len()) == 1);
        assert(dec_digit_val(c) * 1 == dec_digit_val(c)) by (nonlinear_arith);
    } else {
        assert(s.push(c).skip(1) =~= s.skip(1).push(c));
        assert(s.push(c)[0] == s[0]);
        assert(s.push(c).len() == s.len() + 1);
        assert(dec_val_rev(s.push(c)) == dec_digit_val(s[0]) + 10 * dec_val_rev(
            s.skip(1).push(c),
        ));
        lemma_dec_val_rev_push(s.skip(1), c);
        let p1 = pow10(s.skip(1).len());
        assert(s.skip(1).len() == s.len() - 1);
        assert(pow10(s.len()) == 10 * p1);
        assert(dec_digit_val(c) * (10 * p1) == 10 * (dec_digit_val(c) * p1)) by (nonlinear_arith);
        assert(dec_val_rev(s) == dec_digit_val(s[0]) + 10 * dec_val_rev(s.skip(1)));
    }
}

proof fn lemma_dec_val_reverse(s: Seq<char>)
    ensures
        dec_val(s.reverse()) == dec_val_rev(s),
    decreases s.len(),
{
    if s.len() == 0 {
        assert(s.reverse() =~= Seq::<char>::empty());
    } else {
        assert(s.reverse().drop_last() =~= s.skip(1).reverse());
        assert(s.reverse().last() == s[0]);
        lemma_dec_val_reverse(s.skip(1));
    }
}

/// The decimal digit with the given value.
pub open spec fn dec_digit_char(d: nat) -> char
    recommends
        d < 10,
{
    ((d + 48) as u8) as char
}

/// The canonical decimal rendering of a number, most significant digit first.
pub open spec fn dec_chars(n: nat) -> Seq<char>
    decreases n,
{
    if n < 10 {
        seq![dec_digit_char(n)]
    } else {
        dec_chars(n / 10).push(dec_digit_char(n % 10))
    }
}

/// The canonical decimal rendering denotes the number it was made from, and
/// consists of decimal digits alone.
pub proof fn lemma_dec_chars_props(n: nat)
    ensures
        dec_chars(n).len() >= 1,
        all_dec_digits(dec_chars(n)),
        dec_val(dec_chars(n)) == n,
    decreases n,
{
    if n < 10 {
        let s = dec_chars(n);
        assert(s =~= seq![dec_digit_char(n)]);
        assert(is_dec_digit(s[0]));
        assert(s.drop_last() =~= Seq::<char>::empty());
        assert(dec_val(s) == dec_val(s.drop_last()) * 10 + dec_digit_val(s.last()));
    } else {
        lemma_dec_chars_props(n / 10);
        let f = dec_chars(n / 10);
        let c = dec_digit_char(n % 10);
        let s = dec_chars(n);
        assert(s == f.push(c));
        assert(s.drop_last() =~= f);
        assert(s.last() == c);
        assert(dec_val(s) == dec_val(f) * 10 + dec_digit_val(c));
        assert(n == (n / 10) * 10 + n % 10);
        assert forall|i: int| 0 <= i < s.len() implies is_dec_digit(s[i]) by {
            if i < f.len() {
                assert(s[i] == f[i]);
            } else {
                assert(s[i] == c);
            }
        }
    }
}

/// Renders a number as its canonical decimal digit string.
pub fn u64_to_dec(n: u64) -> (r: String)
    ensures
        r@ == dec_chars(n as nat),
        r@.len() >= 1,
        all_dec_digits(r@),
        dec_val(r@) == n,
        n > 0 ==> r@[0] != '0',
        n == 0 ==> r@ =~= seq!['0'],
{
    if n == 0 {
        let mut r = String::new();
        push_char(&mut r, '0');
        proof {
            assert(r@ =~= seq!['0']);
            assert(r@.drop_last() =~= Seq::<char>::empty());
            assert(dec_val(r@.drop_last()) == 0);
            assert(dec_val(r@) == dec_val(r@.drop_last()) * 10 + dec_digit_val('0'));
            assert(dec_chars(0) =~= seq![dec_digit_char(0)]);
            assert(dec_digit_char(0) == '0');
        }
        return r;
    }
    let mut digits: Vec<char> = Vec::new();
    let mut m: u64 = n;
    proof {
        assert(dec_val_rev(digits@) == 0);
        assert(pow10(0) == 1);
        assert((n as nat) * 1 == n as nat);
    }
    while m > 0
        invariant
            n > 0,
            dec_val_rev(digits@) + (m as nat) * pow10(digits@.len()) == n,
            all_dec_digits(digits@),
            m == 0 ==> digits@.len() >= 1,
            (m == 0 && digits@.len() >= 1) ==> digits@.last() != '0',
            m > 0 ==> dec_chars(n as nat) == dec_chars(m as nat) + digits@.reverse(),
            m == 0 ==> dec_chars(n as nat) == digits@.reverse(),
        decreases m,
    {
        let d: u64 = m % 10;
        let c: char = (d as u8 + 48) as char;
        let ghost old_digits = digits@;
        let ghost old_m = m;
        digits.push(c);
        m = m / 10;
        proof {
            assert(is_dec_digit(c));
            assert(dec_digit_val(c) == old_m % 10);
            assert(c == dec_digit_char((old_m as nat) % 10));
            assert(digits@.reverse() =~= seq![c] + old_digits.reverse());
            if old_m < 10 {
                assert(m == 0);
                assert((old_m as nat) % 10 == old_m as nat);
                assert(dec_chars(old_m as nat) =~= seq![c]);
                assert(dec_chars(n as nat) =~= digits@.reverse());
            } else {
                assert(m > 0);
                assert(dec_chars(old_m as nat) == dec_chars(m as nat).push(c));
                assert(dec_chars(m as nat).push(c) + old_digits.reverse() =~= dec_chars(m as nat)
                    + (seq![c] + old_digits.reverse()));
                assert(dec_chars(n as nat) == dec_chars(m as nat) + digits@.reverse());
            }
            lemma_dec_val_rev_push(old_digits, c);
            assert(digits@.len() == old_digits.len() + 1);
            assert(pow10(digits@.len()) == 10 * pow10(old_digits.len()));
            assert(dec_val_rev(digits@) + (m as nat) * pow10(digits@.len()) == n) by {
                assert(old_m as nat == (old_m as nat) % 10 + 10 * ((old_m as nat) / 10));
                assert(dec_val_rev(digits@) == dec_val_rev(old_digits) + ((old_m as nat) % 10)
                    * pow10(old_digits.len()));
                assert(((old_m as nat) % 10) * pow10(old_digits.len()) + ((old_m as nat) / 10) * (10
                    * pow10(old_digits.len())) == (old_m as nat) * pow10(old_digits.len()))
                    by (nonlinear_arith);
                assert(dec_val_rev(old_digits) + (old_m as nat) * pow10(old_digits.len()) == n);
            }
            if m == 0 {
                assert(old_m < 10);
                assert(old_m >= 1);
                assert(dec_digit_val(c) >= 1);
                assert(c != '0');
            }
        }
    }
    proof {
        assert(pow10(digits@.len()) > 0) by {
            lemma_pow10_pos(digits@.len());
        }
        assert(dec_val_rev(digits@) == n);
    }
    let mut r = String::new();
    let mut j: usize = digits.len();
    while j > 0
        invariant
            j <= digits@.len(),
            r@.len() == digits@.len() - j,
            forall|i: int| 0 <= i < r@.len() ==> r@[i] == digits@[digits@.len() - 1 - i],
        decreases j,
    {
        j = j - 1;
        push_char(&mut r, digits[j]);
    }
    proof {
        assert(r@ =~= digits@.reverse());
        lemma_dec_val_reverse(digits@);
        assert(r@[0] == digits@.last());
        assert(r@ == dec_chars(n as nat));
    }
    r
}

proof fn lemma_pow10_pos(k: nat)
    ensures
        pow10(k) >= 1,
    decreases k,
{
    if k > 0 {
        lemma_pow10_pos((k - 1) as nat);
    }
}

// ---------------------------------------------------------------------------
// Case folding and trimming
// ---------------------------------------------------------------------------
/// The upper-case form of an ASCII letter; other characters are unchanged.
pub open spec fn upper_char(c: char) -> char {
    if 'a' <= c && c <= 'z' {
        ((c as u8) - 32) as char
    } else {
        c
    }
}

/// An ASCII sequence with its letters upper-cased; a sequence that is not
/// ASCII stays as it is.
pub open spec fn upper_seq(s: Seq<char>) -> Seq<char> {
    if vstd::utf8::is_ascii_chars(s) {
        Seq::new(s.len(), |i: int| upper_char(s[i]))
    } else {
        s
    }
}

/// Upper-cases the ASCII letters of a string; a string that is not ASCII is
/// returned unchanged.
pub fn to_upper_ascii(s: &str) -> (r: String)
    ensures
        r@ == upper_seq(s@),
        s.is_ascii() ==> r@.len() == s@.len() && (forall|i: int|
            0 <= i < s@.len() ==> r@[i] == upper_char(s@[i])),
        !s.is_ascii() ==> r@ == s@,
{
    match ascii_bytes(s) {
        Some(v) => {
            let mut w: Vec<u8> = Vec::new();
            let mut i: usize = 0;
            while i < v.len()
                invariant
                    i <= v@.len(),
                    w@.len() == i,
                    forall|j: int|
                        0 <= j < i ==> w@[j] == (if 97 <= v@[j] && v@[j] <= 122 {
                            (v@[j] - 32) as u8
                        } else {
                            v@[j]
                        }),
                decreases v@.len() - i,
            {
                let b = v[i];
                if 97 <= b && b <= 122 {
                    w.push(b - 32);
                } else {
                    w.push(b);
                }
                i = i + 1;
            }
            let r = string_from_bytes(&w);
            proof {
                assert forall|i: int| 0 <= i < s@.len() implies r@[i] == upper_char(s@[i]) by {
                    let c = s@[i];
                    assert(v@[i] == c as u8);
                    assert((c as nat) < 128);
                    assert(v@[i] as int == c as int);
                    assert(('a' <= c) == (97 <= c as int));
                    assert((c <= 'z') == (c as int <= 122));
                    if 'a' <= c && c <= 'z' {
                        assert(97 <= v@[i] && v@[i] <= 122);
                        assert(r@[i] == byte_char((v@[i] - 32) as u8));
                        assert(upper_char(c) == ((c as u8) - 32) as char);
                    } else {
                        assert(!(97 <= v@[i] && v@[i] <= 122));
                        assert(r@[i] == byte_char(v@[i]));
                    }
                }
                assert(r@ =~= upper_seq(s@));
            }
            r
        },
        None => s.to_owned(),
    }
}

/// Whether a character counts as surrounding whitespace when output is trimmed.
pub open spec fn is_trim_ws(c: char) -> bool {
    c == ' ' || c == '\t' || c == '\n' || c == '\r'
}

/// The sequence with leading whitespace removed.
pub open spec fn trim_front(s: Seq<char>) -> Seq<char>
    decreases s.len(),
{
    if s.len() > 0 && is_trim_ws(s[0]) {
        trim_front(s.skip(1))
    } else {
        s
    }
}

/// The sequence with trailing whitespace removed.
pub open spec fn trim_back(s: Seq<char>) -> Seq<char>
    decreases s.len(),
{
    if s.len() > 0 && is_trim_ws(s.last()) {
        trim_back(s.drop_last())
    } else {
        s
    }
}

/// A sequence with surrounding whitespace removed.
pub open spec fn trim_spec(s: Seq<char>) -> Seq<char> {
    trim_back(trim_front(s))
}

proof fn lemma_trim_front_skip(s: Seq<char>, i: int)
    requires
        0 <= i <= s.len(),
        forall|j: int| 0 <= j < i ==> is_trim_ws(s[j]),
    ensures
        trim_front(s) == trim_front(s.skip(i)),
    decreases i,
{
    if i > 0 {
        assert(is_trim_ws(s[0]));
        assert(s.skip(1).skip(i - 1) =~= s.skip(i));
        lemma_trim_front_skip(s.skip(1), i - 1);
    } else {
        assert(s.skip(0) =~= s);
    }
}

proof fn lemma_trim_back_take(s: Seq<char>, i: int)
    requires
        0 <= i <= s.len(),
        forall|j: int| i <= j < s.len() ==> is_trim_ws(s[j]),
    ensures
        trim_back(s) == trim_back(s.take(i)),
    decreases s.len() - i,
{
    if i < s.len() {
        assert(is_trim_ws(s.last()));
        assert(s.drop_last().take(i) =~= s.take(i));
        lemma_trim_back_take(s.drop_last(), i);
    } else {
        assert(s.take(i) =~= s);
    }
}

/// Removes the whitespace characters at both ends of a string.
pub fn trim_string(s: &String) -> (r: String)
    ensures
        r@ == trim_spec(s@),
{
    let len = s.as_str().unicode_len();
    let mut a: usize = 0;
    while a < len && is_ws_char(s.as_str().get_char(a))
        invariant
            a <= len,
            len == s@.len(),
            forall|j: int| 0 <= j < a ==> is_trim_ws(s@[j]),
        decreases len - a,
    {
        a = a + 1;
    }
    let mut b: usize = len;
    while b > a && is_ws_char(s.as_str().get_char(b - 1))
        invariant
            a <= b <= len,
            len == s@.len(),
            forall|j: int| 0 <= j < a ==> is_trim_ws(s@[j]),
            forall|j: int| b <= j < len ==> is_trim_ws(s@[j]),
        decreases b,
    {
        b = b - 1;
    }
    let sub = s.as_str().substring_char(a, b);
    proof {
        lemma_trim_front_skip(s@, a as int);
        let t = s@.skip(a as int);
        if a < len {
            assert(!is_trim_ws(s@[a as int]));
            assert(t[0] == s@[a as int]);
            assert(trim_front(t) == t);
        } else {
            assert(t.len() == 0);
            assert(trim_front(t) == t);
        }
        lemma_trim_back_take(t, b - a);
        let u = t.take(b - a);
        if b > a {
            assert(!is_trim_ws(s@[b - 1]));
            assert(u.last() == s@[b - 1]);
            assert(trim_back(u) == u);
        } else {
            assert(u.len() == 0);
            assert(trim_back(u) == u);
        }
        assert(sub@ =~= u);
    }
    sub.to_owned()
}

/// The lower-case form of an ASCII letter; other characters are unchanged.
pub open spec fn lower_char(c: char) -> char {
    if 'A' <= c && c <= 'Z' {
        ((c as u8) + 32) as char
    } else {
        c
    }
}

/// An ASCII sequence with its letters lower-cased; a sequence that is not
/// ASCII stays as it is.
pub open spec fn lower_seq(s: Seq<char>) -> Seq<char> {
    if vstd::utf8::is_ascii_chars(s) {
        Seq::new(s.len(), |i: int| lower_char(s[i]))
    } else {
        s
    }
}

/// Lower-cases the ASCII letters of a string; a string that is not ASCII is
/// returned unchanged.
pub fn to_lower_ascii(s: &str) -> (r: String)
    ensures
        r@ == lower_seq(s@),
{
    match ascii_bytes(s) {
        Some(v) => {
            let mut w: Vec<u8> = Vec::new();
            let mut i: usize = 0;
            while i < v.len()
                invariant
                    i <= v@.len(),
                    w@.len() == i,
                    forall|j: int|
                        0 <= j < i ==> w@[j] == (if 65 <= v@[j] && v@[j] <= 90 {
                            (v@[j] + 32) as u8
                        } else {
                            v@[j]
                        }),
                decreases v@.len() - i,
            {
                let b = v[i];
                if 65 <= b && b <= 90 {
                    w.push(b + 32);
                } else {
                    w.push(b);
                }
                i = i + 1;
            }
            let r = string_from_bytes(&w);
            proof {
                assert forall|i: int| 0 <= i < s@.len() implies r@[i] == lower_char(s@[i]) by {
                    let c = s@[i];
                    assert(v@[i] == c as u8);
                    assert((c as nat) < 128);
                    assert(v@[i] as int == c as int);
                    assert(('A' <= c) == (65 <= c as int));
                    assert((c <= 'Z') == (c as int <= 90));
                    if 'A' <= c && c <= 'Z' {
                        assert(65 <= v@[i] && v@[i] <= 90);
                        assert(r@[i] == byte_char((v@[i] + 32) as u8));
                        assert(lower_char(c) == ((c as u8) + 32) as char);
                    } else {
                        assert(!(65 <= v@[i] && v@[i] <= 90));
                        assert(r@[i] == byte_char(v@[i]));
                    }
                }
                assert(r@ =~= lower_seq(s@));
            }
            r
        },
        None => s.to_owned(),
    }
}

/// Whether two string slices hold the same characters.
pub fn str_eq(a: &str, b: &str) -> (r: bool)
    ensures
        r == (a@ == b@),
{
    let sa = a.to_owned();
    let sb = b.to_owned();
    sa == sb
}

/// Whether a character is surrounding whitespace, decided at run time.
pub fn is_ws_char(c: char) -> (r: bool)
    ensures
        r == is_trim_ws(c),
{
    c == ' ' || c == '\t' || c == '\n' || c == '\r'
}

} // verus!
